//! One memory type of the device with its sub-allocators, and the rules
//! that route a request to one of them.

use vstd::prelude::*;
use vstd::arithmetic::power2::is_pow2;
use crate::arena::{ArenaAllocator, ArenaChunk, ArenaConfig};
use crate::bitmap::{cleared, marked};
use crate::block::{Allocation, BlockFlavor, MemoryBlock, MemoryRequest, Route};
use crate::dedicated::{release_of, DedicatedAllocator, DedicatedBlock, Release};
use crate::dynamic::{DynamicAllocator, DynamicChunk, DynamicConfig};
use crate::error::MemoryError;
use crate::memory::Memory;
use crate::properties::MemoryProperties;
use crate::usage::MemoryUsage;
use crate::util::{
    lemma_sum_bounds, lemma_sum_nonnegative, lemma_sum_ordered, lemma_sum_push, lemma_sum_update,
    lemma_sum_zero, seq_sum,
};

verus! {

/// Which sub-allocators a memory type gets besides the dedicated one, and
/// their settings.
#[derive(Clone, Copy, Debug)]
pub struct HeapsConfig {
    /// Settings of the arena allocator, if there is to be one.
    pub arena: Option<ArenaConfig>,
    /// Settings of the dynamic allocator, if there is to be one.
    pub dynamic: Option<DynamicConfig>,
}

impl HeapsConfig {
    pub open spec fn valid(self) -> bool {
        &&& self.arena matches Some(c) ==> c.valid()
        &&& self.dynamic matches Some(c) ==> c.valid()
    }

    pub fn is_valid(&self) -> (b: bool)
        ensures
            b == self.valid(),
    {
        let arena: bool = match &self.arena {
            Some(c) => c.is_valid(),
            None => true,
        };
        let dynamic: bool = match &self.dynamic {
            Some(c) => c.is_valid(),
            None => true,
        };
        arena && dynamic
    }
}

/// One memory type: its place in the device's tables, its properties, and
/// its sub-allocators. Every raw allocation of the type is counted by the
/// dedicated allocator, whether it backs a dedicated block or a chunk.
pub struct MemoryType {
    /// Index of the memory type.
    pub index: u32,
    /// Index of the heap it draws on.
    pub heap_index: usize,
    /// Its properties.
    pub properties: MemoryProperties,
    /// The device's non-coherent atom size.
    pub atom: u64,
    pub dedicated: DedicatedAllocator,
    pub arena: Option<ArenaAllocator>,
    pub dynamic: Option<DynamicAllocator>,
    /// Number of dedicated blocks that are out.
    pub outstanding: u64,
    /// The dedicated blocks handed out so far, in order: handle and size
    /// of each that is still out.
    pub owned: Ghost<Seq<Option<(u64, u64)>>>,
}

/// One for each dedicated block that is out.
pub open spec fn owned_marks(owned: Seq<Option<(u64, u64)>>) -> Seq<int> {
    Seq::new(
        owned.len(),
        |t: int|
            if owned[t] is Some {
                1int
            } else {
                0int
            },
    )
}

/// The sizes of the dedicated blocks that are out.
pub open spec fn owned_sizes(owned: Seq<Option<(u64, u64)>>) -> Seq<int> {
    Seq::new(
        owned.len(),
        |t: int|
            match owned[t] {
                Some(pair) => pair.1 as int,
                None => 0int,
            },
    )
}

impl MemoryType {
    /// Bytes in dedicated blocks that are out.
    pub open spec fn owned_bytes(self) -> int {
        seq_sum(owned_sizes(self.owned@))
    }

    /// Bytes in chunks of the arena.
    pub open spec fn arena_resident(self) -> int {
        match self.arena {
            Some(a) => a.resident(),
            None => 0,
        }
    }

    /// Bytes in chunks of the dynamic allocator.
    pub open spec fn dynamic_resident(self) -> int {
        match self.dynamic {
            Some(d) => d.resident(),
            None => 0,
        }
    }

    /// Bytes of raw memory that the type holds on its heap.
    pub open spec fn resident(self) -> int {
        self.dedicated.used as int
    }

    pub open spec fn wf(self) -> bool {
        &&& is_pow2(self.atom as int)
        &&& self.dedicated.wf()
        &&& self.dedicated.memory_type == self.index
        &&& self.dedicated.properties == self.properties
        &&& self.dedicated.atom == self.atom
        &&& self.arena matches Some(a) ==> a.wf() && a.memory_type == self.index && a.properties
            == self.properties && a.atom == self.atom
        &&& self.dynamic matches Some(d) ==> d.wf() && d.memory_type == self.index && d.properties
            == self.properties && d.atom == self.atom
        &&& self.dedicated.used == self.owned_bytes() + self.arena_resident()
            + self.dynamic_resident()
        &&& self.outstanding == seq_sum(owned_marks(self.owned@))
        &&& forall|t: int|
            0 <= t < self.owned@.len() ==> ((#[trigger] self.owned@[t]) matches Some(pair)
                ==> pair.1 > 0)
    }

    /// Everything that allocating and freeing leave alone.
    pub open spec fn same_setup(self, other: MemoryType) -> bool {
        &&& self.index == other.index
        &&& self.heap_index == other.heap_index
        &&& self.properties == other.properties
        &&& self.atom == other.atom
        &&& self.arena is Some == other.arena is Some
        &&& self.dynamic is Some == other.dynamic is Some
        &&& self.arena matches Some(a) ==> a.same_setup(other.arena->0)
        &&& self.dynamic matches Some(d) ==> d.same_setup(other.dynamic->0)
    }

    /// Whether `block` is out of this memory type.
    pub open spec fn holds(self, block: MemoryBlock) -> bool {
        &&& block.memory_index == self.index
        &&& match block.block {
            BlockFlavor::Dedicated(b) => {
                &&& block.token@ < self.owned@.len()
                &&& self.owned@[block.token@ as int] == Some((b.memory.raw, b.memory.size))
                &&& b.memory.properties == self.properties
                &&& b.memory.wf()
            },
            BlockFlavor::Arena(b) => self.arena matches Some(a) && a.holds(b),
            BlockFlavor::Dynamic(b) => self.dynamic matches Some(d) && d.holds(b),
        }
    }

    /// No block is out.
    pub open spec fn idle(self) -> bool {
        &&& forall|t: int| 0 <= t < self.owned@.len() ==> (#[trigger] self.owned@[t]) is None
        &&& self.arena matches Some(a) ==> a.idle()
        &&& self.dynamic matches Some(d) ==> d.idle()
    }

    /// What handing out `block` does to the blocks that are out: it joins
    /// them, and the others stay.
    pub open spec fn cut(self, before: MemoryType, block: MemoryBlock) -> bool {
        &&& self.holds(block)
        &&& !before.holds(block)
        &&& forall|x: MemoryBlock| #![trigger before.holds(x)] before.holds(x) ==> self.holds(x)
        &&& forall|x: MemoryBlock|
            #![trigger self.holds(x)]
            self.holds(x) ==> before.holds(x) || x.same_block(block)
    }

    /// What taking `block` back does to the blocks that are out: it leaves
    /// them, and the others stay.
    pub open spec fn returned(self, before: MemoryType, block: MemoryBlock) -> bool {
        &&& !self.holds(block)
        &&& forall|x: MemoryBlock|
            #![trigger before.holds(x)]
            before.holds(x) && !x.same_block(block) ==> self.holds(x)
        &&& forall|x: MemoryBlock| #![trigger self.holds(x)] self.holds(x) ==> before.holds(x)
    }

    /// Whether the usage is one of the two staging usages, which the arena
    /// serves.
    pub open spec fn staging(usage: MemoryUsage) -> bool {
        usage is Upload || usage is Download
    }

    /// The sub-allocator that serves a request: the arena for staging
    /// blocks up to its limit, the dynamic allocator for other blocks up
    /// to its limit, else the dedicated allocator. The arena also yields to
    /// the dedicated allocator where it would need a chunk and has no
    /// number left for one.
    pub open spec fn spec_route(self, usage: MemoryUsage, size: u64, align: u64) -> Route {
        if Self::staging(usage) && (self.arena matches Some(a) && size <= a.max_allocation && (
        a.next_fit(size, align) is Some || a.can_grow())) {
            Route::Arena
        } else if !Self::staging(usage) && (self.dynamic matches Some(d) && d.serves(size, align)) {
            Route::Dynamic
        } else {
            Route::Dedicated
        }
    }

    /// The size class of a request that the dynamic allocator serves.
    pub open spec fn spec_class(self, size: u64, align: u64) -> int {
        let d = self.dynamic->0;
        d.class_index(d.need(size, align))
    }

    /// Bytes of raw memory that the device has to provide before the
    /// request can be served: nothing where a chunk has room, a chunk
    /// where none has, and for a dedicated block the block's allocation.
    pub open spec fn demand(self, usage: MemoryUsage, size: u64, align: u64) -> int {
        match self.spec_route(usage, size, align) {
            Route::Arena => if self.arena->0.next_fit(size, align) is Some {
                0
            } else {
                self.arena->0.chunk_size as int
            },
            Route::Dynamic => {
                let d = self.dynamic->0;
                let class = d.classes@[self.spec_class(size, align)];
                if class.full(d.blocks_per_chunk) {
                    class.chunk_bytes(d.blocks_per_chunk)
                } else {
                    0
                }
            },
            Route::Dedicated => self.dedicated.spec_allocation_size(size),
        }
    }

    /// The request for raw memory that goes with `demand`.
    pub open spec fn request(self, usage: MemoryUsage, size: u64, align: u64) -> MemoryRequest {
        let route = self.spec_route(usage, size, align);
        MemoryRequest {
            memory_index: self.index,
            bytes: self.demand(usage, size, align) as u64,
            route,
            class: if route is Dynamic {
                self.spec_class(size, align) as usize
            } else {
                0
            },
            size,
            align,
        }
    }

    /// Whether the sub-allocators other than that of `route` are as they
    /// are in `before`.
    pub open spec fn same_except(self, before: MemoryType, route: Route) -> bool {
        &&& route !is Dedicated ==> self.owned == before.owned && self.outstanding
            == before.outstanding
        &&& route !is Arena ==> self.arena == before.arena
        &&& route !is Dynamic ==> self.dynamic == before.dynamic
    }

    /// Whether `block` has the place that the allocator of `route` gives
    /// to the next block of `size` bytes cut from memory it holds, and
    /// `after` is that allocator with the block cut.
    pub open spec fn places(
        self,
        after: MemoryType,
        route: Route,
        block: MemoryBlock,
        size: u64,
        align: u64,
    ) -> bool {
        match route {
            Route::Arena => {
                let a = self.arena->0;
                let last = a.chunks@.len() - 1;
                &&& block.block matches BlockFlavor::Arena(b)
                &&& a.next_fit(size, align) == Some(b.range.start)
                &&& b.range.end == b.range.start + size
                &&& b.chunk == a.offset + last
                &&& after.arena->0.offset == a.offset
                &&& after.arena->0.chunks@ == a.chunks@.update(
                    last,
                    a.chunks@[last].with_block(b.range.start, size),
                )
            },
            Route::Dynamic => {
                let d = self.dynamic->0;
                let k = self.spec_class(size, align);
                &&& block.block matches BlockFlavor::Dynamic(b)
                &&& b.class == k
                &&& d.classes@[k].next_free(b.chunk as int, b.slot, d.blocks_per_chunk)
                &&& after.dynamic->0.same_but(d, k)
                &&& after.dynamic->0.classes@[k].chunks@ == d.classes@[k].chunks@.update(
                    b.chunk as int,
                    Some(
                        DynamicChunk {
                            memory: d.classes@[k].chunks@[b.chunk as int]->0.memory,
                            occupied: marked(
                                d.classes@[k].chunks@[b.chunk as int]->0.occupied,
                                b.slot,
                            ),
                        },
                    ),
                )
            },
            Route::Dedicated => false,
        }
    }

    /// Whether the block meets what was asked of it: it is large enough
    /// and starts on the alignment asked for, and on the atom where the
    /// memory is host-visible.
    pub open spec fn meets(self, block: MemoryBlock, size: u64, align: u64) -> bool {
        let range = block.spec_range();
        &&& block.memory_index == self.index
        &&& block.spec_properties() == self.properties
        &&& range.start <= range.end
        &&& range.end - range.start >= size
        &&& range.start % align == 0
        &&& self.properties.is_host_visible() ==> range.start % self.atom == 0
    }

    /// What `allocate` does, from the state before to the state after and
    /// the result.
    pub open spec fn allocates(
        before: MemoryType,
        after: MemoryType,
        usage: MemoryUsage,
        size: u64,
        align: u64,
        available: u64,
        r: Result<Allocation, MemoryError>,
    ) -> bool {
        let demand = before.demand(usage, size, align);
        match r {
            Err(e) => e == MemoryError::HeapsExhausted && !before.affords(demand, available)
                && after == before,
            Ok(Allocation::NeedsMemory(request)) => {
                &&& 0 < demand
                &&& before.affords(demand, available)
                &&& request == before.request(usage, size, align)
                &&& before.expects(request)
                &&& after == before
            },
            Ok(Allocation::Ready(block)) => {
                &&& demand == 0
                &&& after.resident() == before.resident()
                &&& after.cut(before, block)
                &&& after.same_except(before, before.spec_route(usage, size, align))
                &&& before.places(after, before.spec_route(usage, size, align), block, size, align)
                &&& before.meets(block, size, align)
            },
        }
    }

    /// Whether the type can take `demand` bytes more of a heap that has
    /// `available` bytes left: the heap has them, and what the type then
    /// holds can be counted in 64 bits.
    pub open spec fn affords(self, demand: int, available: u64) -> bool {
        demand <= available && self.resident() + demand <= u64::MAX
    }

    /// Whether `request` is one that this memory type can complete: it
    /// names the type, what it asks of the device is what its
    /// sub-allocator takes, and the bytes can be counted.
    pub open spec fn expects(self, request: MemoryRequest) -> bool {
        &&& request.memory_index == self.index
        &&& request.size > 0
        &&& self.resident() + request.bytes <= u64::MAX
        &&& is_pow2(request.align as int)
        &&& match request.route {
            Route::Dedicated => request.bytes == self.dedicated.spec_allocation_size(request.size),
            Route::Arena => self.arena matches Some(a) && a.can_grow() && request.bytes
                == a.chunk_size && request.size <= a.max_allocation,
            Route::Dynamic => self.dynamic matches Some(d) && d.serves(request.size, request.align)
                && d.is_class_of(request.class as int, d.need(request.size, request.align))
                && request.bytes == d.classes@[request.class as int].chunk_bytes(
                d.blocks_per_chunk,
            ),
        }
    }

    /// What `complete` does: the new raw allocation `raw` is taken in and
    /// the block is cut from its front.
    pub open spec fn completes(
        before: MemoryType,
        after: MemoryType,
        request: MemoryRequest,
        raw: u64,
        block: MemoryBlock,
    ) -> bool {
        &&& after.resident() == before.resident() + request.bytes
        &&& after.cut(before, block)
        &&& before.meets(block, request.size, request.align)
        &&& block.spec_memory() == raw
        &&& block.spec_range().start == 0
        &&& after.same_except(before, request.route)
        &&& match request.route {
            Route::Dedicated => {
                &&& block.block matches BlockFlavor::Dedicated(b) && b.memory == Memory::new_spec(
                    raw,
                    request.bytes,
                    before.properties,
                )
                &&& block.spec_range().end == request.bytes
                &&& block.token@ == before.owned@.len()
                &&& after.owned@ == before.owned@.push(Some((raw, request.bytes)))
            },
            Route::Arena => {
                let a = before.arena->0;
                &&& block.block matches BlockFlavor::Arena(b)
                &&& b.range.end == request.size
                &&& b.chunk == a.offset + a.chunks@.len()
                &&& after.arena->0.offset == a.offset
                &&& after.arena->0.chunks@ == a.chunks@.push(
                    ArenaChunk::fresh(
                        Memory::new_spec(raw, request.bytes, before.properties),
                        request.size,
                    ),
                )
            },
            Route::Dynamic => {
                let d = before.dynamic->0;
                let class = d.classes@[request.class as int];
                let chunk = Some(
                    DynamicChunk {
                        memory: Memory::new_spec(raw, request.bytes, before.properties),
                        occupied: 1,
                    },
                );
                &&& block.block matches BlockFlavor::Dynamic(b)
                &&& b.class == request.class
                &&& b.slot == 0
                &&& b.range.end == class.block_size
                &&& b.chunk <= class.chunks@.len()
                &&& forall|c: int| 0 <= c < b.chunk ==> (#[trigger] class.chunks@[c]) is Some
                &&& after.dynamic->0.same_but(d, request.class as int)
                &&& b.chunk < class.chunks@.len() ==> class.chunks@[b.chunk as int] is None
                    && after.dynamic->0.classes@[request.class as int].chunks@
                    == class.chunks@.update(b.chunk as int, chunk)
                &&& b.chunk == class.chunks@.len()
                    ==> after.dynamic->0.classes@[request.class as int].chunks@
                    == class.chunks@.push(chunk)
            },
        }
    }

    /// What `free` does: the block leaves, and `released` are the raw
    /// allocations that go with it, `freed` bytes in all.
    pub open spec fn frees(
        before: MemoryType,
        after: MemoryType,
        block: MemoryBlock,
        released: Seq<Release>,
        freed: u64,
    ) -> bool {
        &&& after.resident() == before.resident() - freed
        &&& after.returned(before, block)
        &&& after.same_except(
            before,
            match block.block {
                BlockFlavor::Dedicated(_) => Route::Dedicated,
                BlockFlavor::Arena(_) => Route::Arena,
                BlockFlavor::Dynamic(_) => Route::Dynamic,
            },
        )
        &&& match block.block {
            BlockFlavor::Dedicated(b) => released == seq![release_of(b.memory)] && freed
                == b.memory.size && after.owned@ == before.owned@.update(block.token@ as int, None),
            BlockFlavor::Arena(b) => {
                let a = before.arena->0;
                let gone = Seq::new(released.len(), |k: int| a.chunks@[k].memory);
                &&& released.len() < a.chunks@.len()
                &&& ArenaAllocator::frees(a, after.arena->0, b, gone)
                &&& forall|k: int| 0 <= k < released.len() ==> #[trigger] released[k] == release_of(gone[k])
                &&& freed == released.len() * a.chunk_size
            },
            BlockFlavor::Dynamic(b) => {
                let d = before.dynamic->0;
                let class = d.classes@[b.class as int];
                let was = class.chunks@[b.chunk as int]->0;
                let rest = cleared(was.occupied, b.slot);
                &&& after.dynamic->0.same_but(d, b.class as int)
                &&& if rest == 0 {
                    &&& released == seq![release_of(was.memory)]
                    &&& freed == class.chunk_bytes(d.blocks_per_chunk)
                    &&& after.dynamic->0.classes@[b.class as int].chunks@ == class.chunks@.update(
                        b.chunk as int,
                        None,
                    )
                } else {
                    &&& released == Seq::<Release>::empty()
                    &&& freed == 0
                    &&& after.dynamic->0.classes@[b.class as int].chunks@ == class.chunks@.update(
                        b.chunk as int,
                        Some(DynamicChunk { memory: was.memory, occupied: rest }),
                    )
                }
            },
        }
    }

    /// A memory type holds at least the bytes of each of its parts, and
    /// at least a byte for each dedicated block that is out.
    pub proof fn lemma_parts(self)
        requires
            self.wf(),
        ensures
            0 <= self.outstanding <= self.owned_bytes(),
            self.owned_bytes() >= 0,
            self.arena_resident() >= 0,
            self.dynamic_resident() >= 0,
            self.owned_bytes() <= self.resident(),
            self.arena_resident() <= self.resident(),
            self.dynamic_resident() <= self.resident(),
    {
        lemma_sum_nonnegative(owned_sizes(self.owned@));
        lemma_sum_ordered(owned_marks(self.owned@), owned_sizes(self.owned@));
        if self.arena is Some {
            let a = self.arena->0;
            assert(a.chunks@.len() * a.chunk_size >= 0) by (nonlinear_arith)
                requires
                    a.chunks@.len() >= 0,
                    a.chunk_size >= 0,
            ;
        }
        if self.dynamic is Some {
            self.dynamic->0.lemma_resident_nonnegative();
        }
    }

    /// A memory type without a block out holds only the chunks that its
    /// arena keeps.
    pub proof fn lemma_idle(self)
        requires
            self.wf(),
            self.idle(),
        ensures
            self.resident() == self.arena_resident(),
            self.arena matches Some(a) ==> a.chunks@.len() <= 1,
    {
        lemma_sum_zero(owned_sizes(self.owned@));
        if self.dynamic is Some {
            self.dynamic->0.lemma_idle();
        }
        if self.arena is Some {
            let a = self.arena->0;
            if a.chunks@.len() >= 2 {
                assert(a.chunks@[0].used_blocks == 0);
                assert(a.chunks@[a.chunks@.len() - 1].used_blocks == 0);
            }
        }
    }

    /// Whether this is the memory type that `new` makes of its arguments:
    /// nothing is out, an arena is there on host-visible memory where
    /// `config` sets one, and a dynamic allocator where `config` sets one.
    pub open spec fn made(
        self,
        memory_type: u32,
        heap_index: usize,
        properties: MemoryProperties,
        config: HeapsConfig,
        atom: u64,
    ) -> bool {
        &&& self.idle()
        &&& self.resident() == 0
        &&& self.index == memory_type
        &&& self.heap_index == heap_index
        &&& self.properties == properties
        &&& self.atom == atom
        &&& self.owned@.len() == 0
        &&& self.arena is Some <==> properties.is_host_visible() && config.arena is Some
        &&& self.arena matches Some(a) ==> a.chunk_size == config.arena->0.chunk_size
            && a.max_allocation == config.arena->0.max_allocation && a.chunks@.len() == 0
            && a.offset == 0
        &&& self.dynamic is Some <==> config.dynamic is Some
        &&& self.dynamic matches Some(d) ==> d.blocks_per_chunk
            == config.dynamic->0.blocks_per_chunk && d.min_block == config.dynamic->0.min_block
            && d.max_block == config.dynamic->0.max_block && d.idle()
    }

    /// What the device has to free when the memory type goes: the chunks
    /// that its arena keeps.
    pub open spec fn retained(self) -> Seq<Release> {
        match self.arena {
            Some(a) => Seq::new(a.chunks@.len(), |k: int| release_of(a.chunks@[k].memory)),
            None => Seq::empty(),
        }
    }

    /// A memory type with the sub-allocators that its properties allow
    /// and `config` asks for: an arena on host-visible memory, a dynamic
    /// allocator on any.
    pub fn new(
        memory_type: u32,
        heap_index: usize,
        properties: MemoryProperties,
        config: HeapsConfig,
        atom: u64,
    ) -> (t: Self)
        requires
            config.valid(),
            is_pow2(atom as int),
        ensures
            t.wf(),
            t.made(memory_type, heap_index, properties, config, atom),
    {
        let arena: Option<ArenaAllocator> = if properties.subset(
            ArenaAllocator::properties_required(),
        ) {
            match config.arena {
                Some(c) => Some(ArenaAllocator::new(memory_type, properties, c, atom)),
                None => None,
            }
        } else {
            None
        };
        let bits: u32 = properties.bits();
        assert(bits & 0 == 0) by (bit_vector);
        let dynamic: Option<DynamicAllocator> = if properties.subset(
            DynamicAllocator::properties_required(),
        ) {
            match config.dynamic {
                Some(c) => Some(DynamicAllocator::new(memory_type, properties, c, atom)),
                None => None,
            }
        } else {
            None
        };
        let t = MemoryType {
            index: memory_type,
            heap_index,
            properties,
            atom,
            dedicated: DedicatedAllocator::new(memory_type, properties, atom),
            arena,
            dynamic,
            outstanding: 0,
            owned: Ghost(Seq::empty()),
        };
        proof {
            if t.dynamic is Some {
                t.dynamic->0.lemma_idle();
            }
            assert(t.arena_resident() == 0) by {
                if t.arena is Some {
                    assert(0 * t.arena->0.chunk_size == 0) by (nonlinear_arith);
                }
            }
        }
        t
    }

    /// Serves a request for a block of `size` bytes aligned to `align`,
    /// given that the heap has `available` bytes left.
    ///
    /// Where a chunk of the routed sub-allocator has room the block is cut
    /// from it. Otherwise the raw memory that is needed is asked for, or
    /// the request fails with `HeapsExhausted` where the type cannot afford
    /// that much; either way nothing changes.
    pub fn allocate(&mut self, usage: MemoryUsage, size: u64, align: u64, available: u64) -> (r:
        Result<Allocation, MemoryError>)
        requires
            old(self).wf(),
            size > 0,
            is_pow2(align as int),
        ensures
            final(self).wf(),
            final(self).same_setup(*old(self)),
            Self::allocates(*old(self), *final(self), usage, size, align, available, r),
    {
        let staging: bool = match usage {
            MemoryUsage::Upload => true,
            MemoryUsage::Download => true,
            MemoryUsage::Dynamic => false,
            MemoryUsage::Data => false,
        };
        let index: u32 = self.index;
        let used: u64 = self.dedicated.used;
        let ghost before = *self;
        if staging {
            match &mut self.arena {
                Some(arena) => {
                    if size <= arena.max_allocation() {
                        let ghost a = *arena;
                        match arena.allocate(size, align) {
                            Some(b) => {
                                proof {
                                    a.lemma_place(
                                        a.chunks@[a.chunks@.len() - 1].cursor,
                                        size,
                                        align,
                                    );
                                }
                                let block = MemoryBlock {
                                    block: BlockFlavor::Arena(b),
                                    memory_index: index,
                                    token: Ghost(0),
                                };
                                return Ok(Allocation::Ready(block));
                            },
                            None => {
                                if arena.has_room_to_grow() {
                                    let bytes: u64 = arena.chunk_size();
                                    if bytes > available || bytes > u64::MAX - used {
                                        return Err(MemoryError::HeapsExhausted);
                                    }
                                    return Ok(
                                        Allocation::NeedsMemory(
                                            MemoryRequest {
                                                memory_index: index,
                                                bytes,
                                                route: Route::Arena,
                                                class: 0,
                                                size,
                                                align,
                                            },
                                        ),
                                    );
                                }
                            },
                        }
                    }
                },
                None => {},
            }
        } else {
            match &mut self.dynamic {
                Some(dynamic) => {
                    if dynamic.can_serve(size, align) {
                        let ghost d = *dynamic;
                        match dynamic.allocate(size, align) {
                            Some(b) => {
                                let block = MemoryBlock {
                                    block: BlockFlavor::Dynamic(b),
                                    memory_index: index,
                                    token: Ghost(0),
                                };
                                return Ok(Allocation::Ready(block));
                            },
                            None => {
                                let class: usize = dynamic.class_for(size, align);
                                proof {
                                    let need = d.need(size, align);
                                    d.lemma_class_unique(d.class_index(need), class as int, need);
                                }
                                let bytes: u64 = dynamic.chunk_size(class);
                                proof {
                                    let c = d.classes@[class as int];
                                    assert(c.wf(d.blocks_per_chunk));
                                    assert(c.block_size * d.blocks_per_chunk > 0)
                                        by (nonlinear_arith)
                                        requires
                                            c.block_size > 0,
                                            d.blocks_per_chunk >= 1,
                                    ;
                                }
                                if bytes > available || bytes > u64::MAX - used {
                                    return Err(MemoryError::HeapsExhausted);
                                }
                                return Ok(
                                    Allocation::NeedsMemory(
                                        MemoryRequest {
                                            memory_index: index,
                                            bytes,
                                            route: Route::Dynamic,
                                            class,
                                            size,
                                            align,
                                        },
                                    ),
                                );
                            },
                        }
                    }
                },
                None => {},
            }
        }
        proof {
            self.dedicated.lemma_allocation_size(size);
        }
        match self.dedicated.allocation_size(size) {
            None => Err(MemoryError::HeapsExhausted),
            Some(bytes) => {
                if bytes > available || bytes > u64::MAX - used {
                    Err(MemoryError::HeapsExhausted)
                } else {
                    Ok(
                        Allocation::NeedsMemory(
                            MemoryRequest {
                                memory_index: index,
                                bytes,
                                route: Route::Dedicated,
                                class: 0,
                                size,
                                align,
                            },
                        ),
                    )
                }
            },
        }
    }

    /// Whether `request` is one that this memory type can complete.
    pub fn accepts(&self, request: &MemoryRequest) -> (b: bool)
        requires
            self.wf(),
        ensures
            b == self.expects(*request),
    {
        if request.memory_index != self.index {
            return false;
        }
        if request.size == 0 {
            return false;
        }
        if !crate::util::is_power_of_two(request.align) {
            return false;
        }
        if request.bytes > u64::MAX - self.dedicated.used {
            return false;
        }
        match request.route {
            Route::Dedicated => {
                proof {
                    self.dedicated.lemma_allocation_size(request.size);
                }
                match self.dedicated.allocation_size(request.size) {
                    Some(bytes) => bytes == request.bytes,
                    None => false,
                }
            },
            Route::Arena => {
                match &self.arena {
                    Some(arena) => arena.has_room_to_grow() && request.bytes == arena.chunk_size()
                        && request.size <= arena.max_allocation(),
                    None => false,
                }
            },
            Route::Dynamic => match &self.dynamic {
                Some(dynamic) => {
                    if !dynamic.can_serve(request.size, request.align) {
                        return false;
                    }
                    let class: usize = dynamic.class_for(request.size, request.align);
                    proof {
                        let need = dynamic.need(request.size, request.align);
                        if dynamic.is_class_of(request.class as int, need) {
                            dynamic.lemma_class_unique(request.class as int, class as int, need);
                        }
                    }
                    if class != request.class {
                        return false;
                    }
                    let bytes: u64 = dynamic.chunk_size(class);
                    bytes == request.bytes
                },
                None => false,
            },
        }
    }

    /// Whether no block is out.
    pub fn is_idle(&self) -> (b: bool)
        requires
            self.wf(),
        ensures
            b == self.idle(),
    {
        proof {
            if forall|t: int| 0 <= t < self.owned@.len() ==> (#[trigger] self.owned@[t]) is None {
                lemma_sum_zero(owned_marks(self.owned@));
            } else {
                let t = choose|t: int| 0 <= t < self.owned@.len() && !((#[trigger] self.owned@[t]) is None);
                lemma_sum_bounds(owned_marks(self.owned@), t);
            }
        }
        let arena: bool = match &self.arena {
            Some(a) => a.is_idle(),
            None => true,
        };
        let dynamic: bool = match &self.dynamic {
            Some(d) => d.is_idle(),
            None => true,
        };
        self.outstanding == 0 && arena && dynamic
    }

    /// Takes in `raw`, the raw allocation of `request.bytes` bytes that
    /// the device handed out for `request`, and cuts the block from its
    /// front. Returns the block and the bytes taken from the heap.
    pub fn complete(&mut self, request: &MemoryRequest, raw: u64) -> (r: (MemoryBlock, u64))
        requires
            old(self).wf(),
            old(self).expects(*request),
        ensures
            final(self).wf(),
            final(self).same_setup(*old(self)),
            Self::completes(*old(self), *final(self), *request, raw, r.0),
            r.1 == request.bytes,
    {
        let ghost before = *self;
        proof {
            reveal(is_pow2);
            before.lemma_parts();
            before.dedicated.lemma_allocation_size(request.size);
        }
        let index: u32 = self.index;
        let (backing, allocated) = self.dedicated.allocate(raw, request.bytes);
        match request.route {
            Route::Dedicated => {
                let ghost token = self.owned@.len();
                proof {
                    let entry = Some((raw, request.bytes));
                    assert(owned_sizes(before.owned@.push(entry)) =~= owned_sizes(
                        before.owned@,
                    ).push(request.bytes as int));
                    assert(owned_marks(before.owned@.push(entry)) =~= owned_marks(
                        before.owned@,
                    ).push(1));
                    lemma_sum_push(owned_sizes(before.owned@), request.bytes as int);
                    lemma_sum_push(owned_marks(before.owned@), 1);
                }
                self.owned = Ghost(self.owned@.push(Some((raw, request.bytes))));
                self.outstanding = self.outstanding + 1;
                (
                    MemoryBlock {
                        block: BlockFlavor::Dedicated(backing),
                        memory_index: index,
                        token: Ghost(token),
                    },
                    allocated,
                )
            },
            Route::Arena => {
                let memory: Memory = backing.memory;
                match &mut self.arena {
                    Some(arena) => {
                        let b = arena.grow(memory, request.size);
                        (
                            MemoryBlock {
                                block: BlockFlavor::Arena(b),
                                memory_index: index,
                                token: Ghost(0),
                            },
                            allocated,
                        )
                    },
                    None => (
                        MemoryBlock {
                            block: BlockFlavor::Dedicated(DedicatedBlock { memory }),
                            memory_index: index,
                            token: Ghost(0),
                        },
                        allocated,
                    ),
                }
            },
            Route::Dynamic => {
                let memory: Memory = backing.memory;
                match &mut self.dynamic {
                    Some(dynamic) => {
                        proof {
                            dynamic.lemma_class_fits(
                                request.class as int,
                                0,
                                request.size,
                                request.align,
                            );
                        }
                        let b = dynamic.grow(request.class, memory);
                        (
                            MemoryBlock {
                                block: BlockFlavor::Dynamic(b),
                                memory_index: index,
                                token: Ghost(0),
                            },
                            allocated,
                        )
                    },
                    None => (
                        MemoryBlock {
                            block: BlockFlavor::Dedicated(DedicatedBlock { memory }),
                            memory_index: index,
                            token: Ghost(0),
                        },
                        allocated,
                    ),
                }
            },
        }
    }

    /// Takes a block back. Returns what the device has to free with it,
    /// oldest first, and the bytes given back to the heap: the block's
    /// own allocation for a dedicated block, else the chunks that the
    /// block's sub-allocator gives up.
    pub fn free(&mut self, block: MemoryBlock) -> (r: (Vec<Release>, u64))
        requires
            old(self).wf(),
            old(self).holds(block),
        ensures
            final(self).wf(),
            final(self).same_setup(*old(self)),
            Self::frees(*old(self), *final(self), block, r.0@, r.1),
    {
        let ghost before = *self;
        proof {
            before.lemma_parts();
        }
        let ghost token = block.token@ as int;
        let mut released: Vec<Release> = Vec::new();
        match block.block {
            BlockFlavor::Dedicated(b) => {
                proof {
                    let sizes = owned_sizes(before.owned@);
                    let marks = owned_marks(before.owned@);
                    lemma_sum_bounds(sizes, token);
                    lemma_sum_bounds(marks, token);
                    lemma_sum_update(sizes, token, 0);
                    lemma_sum_update(marks, token, 0);
                    assert(owned_sizes(before.owned@.update(token, None)) =~= sizes.update(
                        token,
                        0,
                    ));
                    assert(owned_marks(before.owned@.update(token, None)) =~= marks.update(
                        token,
                        0,
                    ));
                }
                self.owned = Ghost(self.owned@.update(token, None));
                self.outstanding = self.outstanding - 1;
                let (release, freed) = self.dedicated.free(b);
                released.push(release);
                (released, freed)
            },
            BlockFlavor::Arena(b) => {
                let mut memories: Vec<Memory> = match &mut self.arena {
                    Some(arena) => arena.free(b),
                    None => Vec::new(),
                };
                let ghost gone = memories@;
                let ghost a = before.arena->0;
                let mut freed: u64 = 0;
                proof {
                    assert forall|k: int| 0 <= k < gone.len() implies (#[trigger] gone[k]).size
                        == a.chunk_size && gone[k] == a.chunks@[k].memory by {
                        let at = b.chunk - a.offset;
                        let returned = a.chunks@.update(
                            at,
                            a.chunks@[at].without_block(b.range.start),
                        );
                        assert(gone[k] == returned[k].memory);
                        assert(a.chunks@[k].wf(a.chunk_size));
                    }
                    assert(gone.len() * a.chunk_size <= a.chunks@.len() * a.chunk_size)
                        by (nonlinear_arith)
                        requires
                            gone.len() < a.chunks@.len(),
                            a.chunk_size >= 0,
                    ;
                }
                while memories.len() > 0
                    invariant
                        released@.len() + memories@.len() == gone.len(),
                        memories@ == gone.subrange(released@.len() as int, gone.len() as int),
                        forall|k: int| 0 <= k < gone.len() ==> (#[trigger] gone[k]).size == a.chunk_size,
                        forall|k: int|
                            0 <= k < released@.len() ==> #[trigger] released@[k] == release_of(
                                gone[k],
                            ),
                        freed == released@.len() * a.chunk_size,
                        gone.len() * a.chunk_size <= before.dedicated.used,
                        self.dedicated.used == before.dedicated.used - freed,
                        self.dedicated.wf(),
                        self.dedicated.memory_type == before.dedicated.memory_type,
                        self.dedicated.properties == before.dedicated.properties,
                        self.dedicated.atom == before.dedicated.atom,
                        self.index == before.index,
                        self.heap_index == before.heap_index,
                        self.properties == before.properties,
                        self.atom == before.atom,
                        self.outstanding == before.outstanding,
                        self.owned == before.owned,
                        self.dynamic == before.dynamic,
                        self.arena is Some,
                        self.arena->0.wf(),
                        self.arena->0.same_setup(a),
                        ArenaAllocator::frees(a, self.arena->0, b, gone),
                        !self.arena->0.holds(b),
                        forall|x: crate::arena::ArenaBlock|
                            #![trigger a.holds(x)]
                            a.holds(x) && !ArenaAllocator::same_block(x, b)
                                ==> self.arena->0.holds(x),
                        forall|x: crate::arena::ArenaBlock|
                            #![trigger self.arena->0.holds(x)]
                            self.arena->0.holds(x) ==> a.holds(x),
                    decreases memories@.len(),
                {
                    let ghost done = released@.len() as int;
                    let memory: Memory = memories.remove(0);
                    proof {
                        assert(memory == gone[done]);
                        assert(memories@ =~= gone.subrange(done + 1, gone.len() as int));
                        assert((done + 1) * a.chunk_size == done * a.chunk_size + a.chunk_size)
                            by (nonlinear_arith);
                        assert((done + 1) * a.chunk_size <= gone.len() * a.chunk_size)
                            by (nonlinear_arith)
                            requires
                                done + 1 <= gone.len(),
                                a.chunk_size >= 0,
                        ;
                    }
                    let (release, bytes) = self.dedicated.free(DedicatedBlock { memory });
                    released.push(release);
                    freed = freed + bytes;
                }
                proof {
                    assert(Seq::new(released@.len(), |k: int| a.chunks@[k].memory) =~= gone);
                }
                (released, freed)
            },
            BlockFlavor::Dynamic(b) => {
                let gone: Option<Memory> = match &mut self.dynamic {
                    Some(dynamic) => {
                        proof {
                            dynamic.lemma_resident_covers(b.class as int, b.chunk as int);
                        }
                        dynamic.free(b)
                    },
                    None => None,
                };
                match gone {
                    Some(memory) => {
                        proof {
                            let d = before.dynamic->0;
                            assert(d.classes@[b.class as int].wf(d.blocks_per_chunk));
                        }
                        let (release, freed) = self.dedicated.free(DedicatedBlock { memory });
                        released.push(release);
                        (released, freed)
                    },
                    None => (released, 0),
                }
            },
        }
    }

    /// Gives up the memory type, which has no block out. Returns what the
    /// device has to free: the chunks that the arena kept.
    pub fn dispose(self) -> (released: Vec<Release>)
        requires
            self.wf(),
            self.idle(),
        ensures
            released@ == self.retained(),
    {
        let mut released: Vec<Release> = Vec::new();
        match self.arena {
            Some(arena) => {
                let ghost a = arena;
                let memories: Vec<Memory> = arena.dispose();
                let mut k: usize = 0;
                while k < memories.len()
                    invariant
                        k <= memories@.len(),
                        released@.len() == k,
                        memories@.len() == a.chunks@.len(),
                        forall|j: int|
                            0 <= j < memories@.len() ==> #[trigger] memories@[j]
                                == a.chunks@[j].memory,
                        forall|j: int|
                            0 <= j < k ==> #[trigger] released@[j] == release_of(
                                a.chunks@[j].memory,
                            ),
                    decreases memories@.len() - k,
                {
                    released.push(Release::of(&memories[k]));
                    k = k + 1;
                }
            },
            None => {},
        }
        match self.dynamic {
            Some(dynamic) => {
                dynamic.dispose();
            },
            None => {},
        }
        assert(released@ =~= self.retained());
        released
    }

    /// The raw allocation that `block` lies in.
    pub open spec fn memory_of(self, block: MemoryBlock) -> Memory {
        match block.block {
            BlockFlavor::Dedicated(b) => b.memory,
            BlockFlavor::Arena(b) => self.arena->0.memory_of(b),
            BlockFlavor::Dynamic(b) => self.dynamic->0.memory_of(b),
        }
    }

    /// A block lies inside its raw allocation and has its handle and
    /// properties.
    pub proof fn lemma_block_inside(self, block: MemoryBlock)
        requires
            self.wf(),
            self.holds(block),
        ensures
            block.spec_range().start <= block.spec_range().end <= self.memory_of(block).size,
            self.memory_of(block).wf(),
            self.memory_of(block).raw == block.spec_memory(),
            self.memory_of(block).properties == block.spec_properties(),
            block.spec_properties() == self.properties,
    {
        match block.block {
            BlockFlavor::Dedicated(b) => {},
            BlockFlavor::Arena(b) => {
                self.arena->0.lemma_block_inside(b);
            },
            BlockFlavor::Dynamic(b) => {
                self.dynamic->0.lemma_block_inside(b);
            },
        }
    }

    /// What a change of the mapping of the block's raw allocation leaves
    /// as it was: everything but the record of that allocation, which
    /// lies in the block where the block is a dedicated one, else in the
    /// block's chunk.
    pub open spec fn remapped(
        self,
        before: MemoryType,
        block: MemoryBlock,
        was: MemoryBlock,
    ) -> bool {
        &&& self.same_setup(before)
        &&& self.resident() == before.resident()
        &&& self.idle() == before.idle()
        &&& forall|x: MemoryBlock| #![trigger before.holds(x)] before.holds(x) ==> self.holds(x)
        &&& forall|x: MemoryBlock| #![trigger self.holds(x)] self.holds(x) ==> before.holds(x)
        &&& forall|x: MemoryBlock|
            #![trigger self.memory_of(x)]
            before.holds(x) && !x.shares_allocation(was) ==> self.memory_of(x)
                == before.memory_of(x)
        &&& forall|route: Route, first: int, second: int| #[trigger]
            self.handle_at(route, first, second) == before.handle_at(route, first, second)
        &&& self.dedicated == before.dedicated
        &&& match was.block {
            BlockFlavor::Dedicated(_) => {
                &&& self.same_except(before, Route::Dedicated)
                &&& self.owned == before.owned
                &&& self.outstanding == before.outstanding
                &&& block.block is Dedicated
            },
            BlockFlavor::Arena(b) => {
                let a = before.arena->0;
                let at = b.chunk - a.offset;
                &&& self.same_except(before, Route::Arena)
                &&& block.block == was.block
                &&& self.arena->0.offset == a.offset
                &&& self.arena->0.chunks@ == a.chunks@.update(
                    at,
                    ArenaChunk { memory: self.memory_of(block), ..a.chunks@[at] },
                )
            },
            BlockFlavor::Dynamic(b) => {
                let d = before.dynamic->0;
                let chunks = d.classes@[b.class as int].chunks@;
                &&& self.same_except(before, Route::Dynamic)
                &&& block.block == was.block
                &&& self.dynamic->0.same_but(d, b.class as int)
                &&& self.dynamic->0.classes@[b.class as int].chunks@ == chunks.update(
                    b.chunk as int,
                    Some(
                        DynamicChunk {
                            memory: self.memory_of(block),
                            occupied: chunks[b.chunk as int]->0.occupied,
                        },
                    ),
                )
            },
        }
        &&& self.holds(block)
        &&& block.same_block(was)
        &&& block.token == was.token
        &&& block.spec_range() == was.spec_range()
        &&& block.spec_memory() == was.spec_memory()
        &&& block.spec_properties() == was.spec_properties()
    }

    /// The raw allocation that `block` lies in.
    pub fn memory(&self, block: &MemoryBlock) -> (m: Memory)
        requires
            self.wf(),
            self.holds(*block),
        ensures
            m == self.memory_of(*block),
    {
        match &block.block {
            BlockFlavor::Dedicated(b) => b.memory.snapshot(),
            BlockFlavor::Arena(b) => match &self.arena {
                Some(arena) => arena.memory(b).snapshot(),
                None => Memory::new(b.raw, 0, self.properties),
            },
            BlockFlavor::Dynamic(b) => match &self.dynamic {
                Some(dynamic) => dynamic.memory(b),
                None => Memory::new(b.raw, 0, self.properties),
            },
        }
    }

    /// Records another state of the mapping of the raw allocation that
    /// `block` lies in.
    pub fn set_mapping(&mut self, block: &mut MemoryBlock, host: Option<usize>, mapped: u64)
        requires
            old(self).wf(),
            old(self).holds(*old(block)),
            old(self).memory_of(*old(block)).with_mapping(host, mapped).wf(),
        ensures
            final(self).wf(),
            final(self).remapped(*old(self), *final(block), *old(block)),
            final(self).memory_of(*final(block)) == old(self).memory_of(*old(block)).with_mapping(
                host,
                mapped,
            ),
    {
        let ghost before = *self;
        let ghost was = *block;
        match &mut block.block {
            BlockFlavor::Dedicated(b) => {
                b.memory.set_mapping(host, mapped);
            },
            BlockFlavor::Arena(b) => {
                match &mut self.arena {
                    Some(arena) => {
                        arena.set_mapping(b, host, mapped);
                    },
                    None => {},
                }
            },
            BlockFlavor::Dynamic(b) => {
                match &mut self.dynamic {
                    Some(dynamic) => {
                        dynamic.set_mapping(b, host, mapped);
                    },
                    None => {},
                }
            },
        }
        proof {
            assert forall|route: Route, first: int, second: int| #[trigger]
                self.handle_at(route, first, second) == before.handle_at(
                    route,
                    first,
                    second,
                ) by {
                match was.block {
                    BlockFlavor::Dynamic(b) => {
                        if route is Dynamic && first != b.class && 0 <= first
                            < before.dynamic->0.classes@.len() {
                            assert(self.dynamic->0.classes@[first]
                                == before.dynamic->0.classes@[first]);
                        }
                    },
                    _ => {},
                }
            }
        }
    }

    /// What can be told of a block that is out without knowing which
    /// blocks were handed out. For a block of the dynamic allocator that is
    /// all there is to tell. For an arena block its chunk is there, with
    /// blocks out, and the block lies in the part given out. For a
    /// dedicated block the type has dedicated blocks out and holds at least
    /// its bytes.
    pub open spec fn plausible(self, block: MemoryBlock) -> bool {
        &&& block.memory_index == self.index
        &&& match block.block {
            BlockFlavor::Dedicated(b) => {
                &&& b.memory.properties == self.properties
                &&& b.memory.wf()
                &&& 0 < b.memory.size <= self.dedicated.used
                &&& self.outstanding > 0
            },
            BlockFlavor::Arena(b) => self.arena matches Some(a) && a.plausible(b),
            BlockFlavor::Dynamic(b) => self.dynamic matches Some(d) && d.holds(b),
        }
    }

    /// A block that is out is plausible.
    pub proof fn lemma_plausible(self, block: MemoryBlock)
        requires
            self.wf(),
            self.holds(block),
        ensures
            self.plausible(block),
    {
        self.lemma_parts();
        match block.block {
            BlockFlavor::Dedicated(b) => {
                lemma_sum_bounds(owned_sizes(self.owned@), block.token@ as int);
                lemma_sum_bounds(owned_marks(self.owned@), block.token@ as int);
            },
            BlockFlavor::Arena(b) => {
                self.arena->0.lemma_plausible(b);
            },
            BlockFlavor::Dynamic(b) => {},
        }
    }

    /// Whether `block` may be out of this memory type.
    pub fn is_plausible(&self, block: &MemoryBlock) -> (b: bool)
        requires
            self.wf(),
        ensures
            b == self.plausible(*block),
    {
        if block.memory_index != self.index {
            return false;
        }
        match &block.block {
            BlockFlavor::Dedicated(b) => b.memory.properties == self.properties
                && b.memory.is_well_formed() && 0 < b.memory.size && b.memory.size
                <= self.dedicated.used && self.outstanding > 0,
            BlockFlavor::Arena(b) => match &self.arena {
                Some(arena) => arena.is_plausible(b),
                None => false,
            },
            BlockFlavor::Dynamic(b) => match &self.dynamic {
                Some(dynamic) => dynamic.is_out(b),
                None => false,
            },
        }
    }
}

} // verus!
