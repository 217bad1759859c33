//! The arena allocator: a bump allocator over a queue of chunks, for
//! staging memory that is freed in the order it was taken.

use vstd::prelude::*;
use vstd::arithmetic::power2::is_pow2;
use std::collections::VecDeque;
use std::ops::Range;
use crate::memory::Memory;
use crate::properties::MemoryProperties;
use crate::util::{align_up, aligned, disjoint, lemma_align_up, max_of};

verus! {

/// Settings of an arena allocator.
#[derive(Clone, Copy, Debug)]
pub struct ArenaConfig {
    /// Size of each chunk taken from the device.
    pub chunk_size: u64,
    /// Largest block served; larger requests go elsewhere.
    pub max_allocation: u64,
}

impl ArenaConfig {
    /// The largest block served fits in a chunk. With a limit of 0 the
    /// arena serves nothing.
    pub open spec fn valid(self) -> bool {
        self.max_allocation <= self.chunk_size
    }

    pub fn is_valid(&self) -> (b: bool)
        ensures
            b == self.valid(),
    {
        self.max_allocation <= self.chunk_size
    }
}

/// A block inside a chunk of an arena.
#[derive(Debug)]
pub struct ArenaBlock {
    /// Handle of the chunk's raw allocation.
    pub raw: u64,
    /// Number of the chunk, counted over all chunks the arena ever had.
    pub chunk: u64,
    /// The block's bytes, as offsets into the raw allocation.
    pub range: Range<u64>,
    /// Properties of the memory.
    pub properties: MemoryProperties,
}

/// One chunk: a raw allocation filled from the front.
pub struct ArenaChunk {
    /// The raw allocation.
    pub memory: Memory,
    /// First byte not yet given out.
    pub cursor: u64,
    /// Number of blocks out.
    pub used_blocks: u64,
    /// The blocks out: offset to size.
    pub live: Ghost<Map<int, int>>,
}

impl ArenaChunk {
    pub open spec fn wf(self, chunk_size: u64) -> bool {
        &&& self.memory.wf()
        &&& self.memory.size == chunk_size
        &&& self.cursor <= chunk_size
        &&& self.live@.dom().finite()
        &&& self.live@.dom().len() == self.used_blocks
        &&& forall|o: int| #[trigger]
            self.live@.dom().contains(o) ==> 0 <= o && 0 < self.live@[o] && o + self.live@[o]
                <= self.cursor
        &&& forall|a: int, b: int|
            #![trigger self.live@.dom().contains(a), self.live@.dom().contains(b)]
            self.live@.dom().contains(a) && self.live@.dom().contains(b) && a != b ==> disjoint(
                a,
                a + self.live@[a],
                b,
                b + self.live@[b],
            )
    }

    /// The chunk after a block of `size` bytes was taken at `start`.
    pub open spec fn with_block(self, start: u64, size: u64) -> ArenaChunk {
        ArenaChunk {
            memory: self.memory,
            cursor: (start + size) as u64,
            used_blocks: (self.used_blocks + 1) as u64,
            live: Ghost(self.live@.insert(start as int, size as int)),
        }
    }

    /// The chunk after the block at `start` came back.
    pub open spec fn without_block(self, start: u64) -> ArenaChunk {
        ArenaChunk {
            memory: self.memory,
            cursor: self.cursor,
            used_blocks: (self.used_blocks - 1) as u64,
            live: Ghost(self.live@.remove(start as int)),
        }
    }

    /// A chunk on a new raw allocation, with one block at its front.
    pub open spec fn fresh(memory: Memory, size: u64) -> ArenaChunk {
        ArenaChunk {
            memory,
            cursor: size,
            used_blocks: 1,
            live: Ghost(Map::<int, int>::empty().insert(0, size as int)),
        }
    }

    /// A chunk has no more blocks out than bytes given out.
    pub proof fn lemma_blocks_bounded(self, chunk_size: u64)
        requires
            self.wf(chunk_size),
        ensures
            self.used_blocks <= self.cursor,
    {
        let all = vstd::set_lib::set_int_range(0, self.cursor as int);
        vstd::set_lib::lemma_int_range(0, self.cursor as int);
        assert(self.live@.dom().subset_of(all));
        vstd::set_lib::lemma_len_subset(self.live@.dom(), all);
    }
}

/// Bump allocator over a queue of equally sized chunks. Blocks are cut from
/// the last chunk; a chunk whose blocks have all come back is handed to the
/// device once it stands at the head of the queue with another behind it.
pub struct ArenaAllocator {
    /// Index of the memory type served.
    pub memory_type: u32,
    /// Properties of that memory type.
    pub properties: MemoryProperties,
    /// The device's non-coherent atom size.
    pub atom: u64,
    /// Size of each chunk.
    pub chunk_size: u64,
    /// Largest block served.
    pub max_allocation: u64,
    /// Number of the chunk at the head of the queue.
    pub offset: u64,
    /// The chunks, oldest first.
    pub chunks: VecDeque<ArenaChunk>,
}

impl ArenaAllocator {
    pub open spec fn wf(self) -> bool {
        &&& is_pow2(self.atom as int)
        &&& self.properties.is_host_visible()
        &&& self.max_allocation <= self.chunk_size
        &&& self.offset + self.chunks@.len() <= u64::MAX
        &&& self.resident() <= u64::MAX
        &&& forall|i: int|
            0 <= i < self.chunks@.len() ==> (#[trigger] self.chunks@[i]).wf(self.chunk_size)
                && self.chunks@[i].memory.properties == self.properties
        &&& self.chunks@.len() >= 2 ==> self.chunks@[0].used_blocks > 0
            || self.chunks@[self.chunks@.len() - 1].used_blocks > 0
    }

    /// Everything but the chunks and their numbering.
    pub open spec fn same_setup(self, other: ArenaAllocator) -> bool {
        &&& self.memory_type == other.memory_type
        &&& self.properties == other.properties
        &&& self.atom == other.atom
        &&& self.chunk_size == other.chunk_size
        &&& self.max_allocation == other.max_allocation
    }

    /// Bytes of raw memory held.
    pub open spec fn resident(self) -> int {
        self.chunks@.len() * self.chunk_size
    }

    /// No block is out.
    pub open spec fn idle(self) -> bool {
        forall|i: int| 0 <= i < self.chunks@.len() ==> (#[trigger] self.chunks@[i]).used_blocks == 0
    }

    /// Whether the arena can number another chunk.
    pub open spec fn can_grow(self) -> bool {
        self.offset + self.chunks@.len() < u64::MAX
    }

    /// Whether `block` is out of this arena.
    pub open spec fn holds(self, block: ArenaBlock) -> bool {
        let i = block.chunk - self.offset;
        &&& 0 <= i < self.chunks@.len()
        &&& self.chunks@[i].live@.dom().contains(block.range.start as int)
        &&& self.chunks@[i].live@[block.range.start as int] == block.range.end - block.range.start
        &&& block.raw == self.chunks@[i].memory.raw
        &&& block.properties == self.properties
    }

    /// Whether two blocks are the same allocation of this arena.
    pub open spec fn same_block(a: ArenaBlock, b: ArenaBlock) -> bool {
        a.chunk == b.chunk && a.range.start == b.range.start
    }

    /// The alignment a block gets: what was asked for, and at least the
    /// atom, the memory being host-visible.
    pub open spec fn effective_align(self, align: u64) -> int {
        max_of(align as int, self.atom as int)
    }

    /// Where a block of `size` bytes goes in a chunk filled up to `cursor`,
    /// if it fits.
    pub open spec fn place(self, cursor: u64, size: u64, align: u64) -> Option<u64> {
        let start = align_up(cursor as int, self.effective_align(align));
        if start + size <= self.chunk_size {
            Some(start as u64)
        } else {
            None
        }
    }

    /// Where the next block of `size` bytes goes in the last chunk, if
    /// there is a chunk and it has room.
    pub open spec fn next_fit(self, size: u64, align: u64) -> Option<u64> {
        if self.chunks@.len() == 0 {
            None
        } else {
            self.place(self.chunks@[self.chunks@.len() - 1].cursor, size, align)
        }
    }

    /// What taking `block` back does to an arena: the block's chunk counts
    /// one block less, and the chunks `gone` leave from the head of the
    /// queue, which are those in front of the first chunk that has a block
    /// out or is the last.
    pub open spec fn frees(
        before: ArenaAllocator,
        after: ArenaAllocator,
        block: ArenaBlock,
        gone: Seq<Memory>,
    ) -> bool {
        let at = block.chunk - before.offset;
        let returned = before.chunks@.update(
            at,
            before.chunks@[at].without_block(block.range.start),
        );
        &&& gone.len() < returned.len()
        &&& forall|k: int| 0 <= k < gone.len() ==> (#[trigger] returned[k]).used_blocks == 0
        &&& gone.len() == returned.len() - 1 || returned[gone.len() as int].used_blocks > 0
        &&& forall|k: int| 0 <= k < gone.len() ==> #[trigger] gone[k] == returned[k].memory
        &&& after.chunks@ == returned.subrange(gone.len() as int, returned.len() as int)
        &&& after.offset == before.offset + gone.len()
        &&& after.resident() == before.resident() - gone.len() * before.chunk_size
    }

    /// A block is placed on a multiple of the alignment asked for and of
    /// the atom.
    pub proof fn lemma_place(self, cursor: u64, size: u64, align: u64)
        requires
            self.wf(),
            is_pow2(align as int),
            self.place(cursor, size, align) is Some,
        ensures
            self.place(cursor, size, align)->0 >= cursor,
            self.place(cursor, size, align)->0 % align == 0,
            self.place(cursor, size, align)->0 % self.atom == 0,
    {
        reveal(is_pow2);
        let step = self.effective_align(align);
        lemma_align_up(cursor as int, step);
        let start = align_up(cursor as int, step);
        crate::util::lemma_multiple_of_larger_pow2(start, align as int, step);
        crate::util::lemma_multiple_of_larger_pow2(start, self.atom as int, step);
    }

    /// An arena without chunks.
    pub fn new(memory_type: u32, properties: MemoryProperties, config: ArenaConfig, atom: u64) -> (a:
        Self)
        requires
            properties.is_host_visible(),
            config.valid(),
            is_pow2(atom as int),
        ensures
            a.wf(),
            a.idle(),
            a.chunks@.len() == 0,
            a.offset == 0,
            a.memory_type == memory_type,
            a.properties == properties,
            a.atom == atom,
            a.chunk_size == config.chunk_size,
            a.max_allocation == config.max_allocation,
    {
        ArenaAllocator {
            memory_type,
            properties,
            atom,
            chunk_size: config.chunk_size,
            max_allocation: config.max_allocation,
            offset: 0,
            chunks: VecDeque::new(),
        }
    }

    /// The set of properties a memory type needs to have an arena.
    pub fn properties_required() -> (flags: u32)
        ensures
            flags == crate::properties::HOST_VISIBLE,
    {
        crate::properties::HOST_VISIBLE
    }

    /// Largest block served.
    pub fn max_allocation(&self) -> (m: u64)
        ensures
            m == self.max_allocation,
    {
        self.max_allocation
    }

    /// Size of each chunk.
    pub fn chunk_size(&self) -> (m: u64)
        ensures
            m == self.chunk_size,
    {
        self.chunk_size
    }

    /// Whether another chunk can be numbered.
    pub fn has_room_to_grow(&self) -> (b: bool)
        requires
            self.wf(),
        ensures
            b == self.can_grow(),
    {
        let len: u64 = self.chunks.len() as u64;
        self.offset < u64::MAX - len
    }

    /// Whether no block is out.
    pub fn is_idle(&self) -> (b: bool)
        requires
            self.wf(),
        ensures
            b == self.idle(),
    {
        let len: usize = self.chunks.len();
        if len == 0 {
            true
        } else if len == 1 {
            self.chunks[0].used_blocks == 0
        } else {
            assert(self.chunks@[0].used_blocks > 0 || self.chunks@[len - 1].used_blocks > 0);
            false
        }
    }

    fn find_place(&self, cursor: u64, size: u64, align: u64) -> (r: Option<u64>)
        requires
            self.wf(),
        ensures
            r == self.place(cursor, size, align),
    {
        proof {
            reveal(is_pow2);
            lemma_align_up(cursor as int, self.effective_align(align));
        }
        let step: u64 = if align >= self.atom {
            align
        } else {
            self.atom
        };
        match aligned(cursor, step) {
            None => None,
            Some(start) => match start.checked_add(size) {
                None => None,
                Some(end) => if end <= self.chunk_size {
                    Some(start)
                } else {
                    None
                },
            },
        }
    }

    /// Cuts a block of `size` bytes from the last chunk. `None`, with
    /// nothing changed, where there is no chunk or the block does not fit.
    pub fn allocate(&mut self, size: u64, align: u64) -> (r: Option<ArenaBlock>)
        requires
            old(self).wf(),
            size > 0,
            is_pow2(align as int),
        ensures
            final(self).wf(),
            final(self).same_setup(*old(self)),
            final(self).offset == old(self).offset,
            final(self).resident() == old(self).resident(),
            forall|x: ArenaBlock| old(self).holds(x) ==> final(self).holds(x),
            match r {
                None => old(self).next_fit(size, align) is None && *final(self) == *old(self),
                Some(block) => {
                    let last = old(self).chunks@.len() - 1;
                    &&& old(self).next_fit(size, align) == Some(block.range.start)
                    &&& block.range.end == block.range.start + size
                    &&& block.chunk == old(self).offset + last
                    &&& block.raw == old(self).chunks@[last].memory.raw
                    &&& block.properties == old(self).properties
                    &&& final(self).chunks@ == old(self).chunks@.update(
                        last,
                        old(self).chunks@[last].with_block(block.range.start, size),
                    )
                    &&& final(self).holds(block)
                    &&& !old(self).holds(block)
                    &&& forall|x: ArenaBlock|
                        #![trigger final(self).holds(x)]
                        final(self).holds(x) ==> old(self).holds(x) || Self::same_block(x, block)
                },
            },
    {
        let len: usize = self.chunks.len();
        if len == 0 {
            return None;
        }
        let cursor: u64 = self.chunks[len - 1].cursor;
        match self.find_place(cursor, size, align) {
            None => None,
            Some(start) => {
                let ghost before = self.chunks@;
                let mut chunk = self.chunks.pop_back().unwrap();
                proof {
                    reveal(is_pow2);
                    lemma_align_up(cursor as int, self.effective_align(align));
                    chunk.lemma_blocks_bounded(self.chunk_size);
                    assert(!chunk.live@.dom().contains(start as int));
                }
                let raw: u64 = chunk.memory.raw;
                chunk.cursor = start + size;
                chunk.used_blocks = chunk.used_blocks + 1;
                chunk.live = Ghost(chunk.live@.insert(start as int, size as int));
                self.chunks.push_back(chunk);
                proof {
                    assert(chunk == before[len - 1].with_block(start, size));
                    assert(self.chunks@ =~= before.update(len - 1, chunk));
                    assert(self.chunks@.len() * self.chunk_size == before.len() * self.chunk_size);
                }
                Some(
                    ArenaBlock {
                        raw,
                        chunk: self.offset + (len - 1) as u64,
                        range: start..start + size,
                        properties: self.properties,
                    },
                )
            },
        }
    }

    /// Puts `memory`, a new chunk that the device has just handed out, at
    /// the end of the queue and cuts a block of `size` bytes from its
    /// front.
    pub fn grow(&mut self, memory: Memory, size: u64) -> (block: ArenaBlock)
        requires
            old(self).wf(),
            old(self).can_grow(),
            old(self).resident() + old(self).chunk_size <= u64::MAX,
            0 < size <= old(self).chunk_size,
            memory.wf(),
            memory.size == old(self).chunk_size,
            memory.properties == old(self).properties,
        ensures
            final(self).wf(),
            final(self).same_setup(*old(self)),
            final(self).offset == old(self).offset,
            final(self).resident() == old(self).resident() + old(self).chunk_size,
            forall|x: ArenaBlock| old(self).holds(x) ==> final(self).holds(x),
            forall|x: ArenaBlock|
                #![trigger final(self).holds(x)]
                final(self).holds(x) ==> old(self).holds(x) || Self::same_block(x, block),
            final(self).chunks@ == old(self).chunks@.push(ArenaChunk::fresh(memory, size)),
            block == (ArenaBlock {
                raw: memory.raw,
                chunk: (old(self).offset + old(self).chunks@.len()) as u64,
                range: Range { start: 0, end: size },
                properties: old(self).properties,
            }),
            final(self).holds(block),
            !old(self).holds(block),
    {
        let len: usize = self.chunks.len();
        let ghost before = self.chunks@;
        let raw: u64 = memory.raw;
        let chunk = ArenaChunk {
            memory,
            cursor: size,
            used_blocks: 1,
            live: Ghost(Map::<int, int>::empty().insert(0, size as int)),
        };
        proof {
            assert(chunk.live@.dom() =~= Set::<int>::empty().insert(0));
            assert(chunk.wf(self.chunk_size));
            assert((before.len() + 1) * self.chunk_size == before.len() * self.chunk_size
                + self.chunk_size) by (nonlinear_arith);
        }
        self.chunks.push_back(chunk);
        ArenaBlock {
            raw,
            chunk: self.offset + len as u64,
            range: 0..size,
            properties: self.properties,
        }
    }

    /// Takes a block back, then hands to the device every chunk at the
    /// head of the queue that has no block out and another chunk behind
    /// it. Returns the raw allocations of those chunks, oldest first.
    pub fn free(&mut self, block: ArenaBlock) -> (r: Vec<Memory>)
        requires
            old(self).wf(),
            old(self).holds(block),
        ensures
            final(self).wf(),
            final(self).same_setup(*old(self)),
            !final(self).holds(block),
            forall|x: ArenaBlock|
                #![trigger old(self).holds(x)]
                old(self).holds(x) && !Self::same_block(x, block) ==> final(self).holds(x),
            forall|x: ArenaBlock| final(self).holds(x) ==> old(self).holds(x),
            Self::frees(*old(self), *final(self), block, r@),
    {
        let len: usize = self.chunks.len();
        assert(block.chunk - self.offset < len);
        let at: usize = (block.chunk - self.offset) as usize;
        assert(at == block.chunk - self.offset);
        let ghost before = self.chunks@;
        let mut chunk = self.chunks.remove(at).unwrap();
        proof {
            assert(chunk == before[at as int]);
            assert(chunk.wf(self.chunk_size));
            assert(chunk.live@.dom().contains(block.range.start as int));
            if chunk.live@.dom().len() == 0 {
                chunk.live@.dom().lemma_len0_is_empty();
            }
        }
        chunk.used_blocks = chunk.used_blocks - 1;
        chunk.live = Ghost(chunk.live@.remove(block.range.start as int));
        self.chunks.insert(at, chunk);
        let ghost returned = self.chunks@;
        let total: usize = self.chunks.len();
        proof {
            assert(chunk == before[at as int].without_block(block.range.start));
            assert(returned =~= before.update(at as int, chunk));
            assert(chunk.wf(self.chunk_size));
            assert forall|x: ArenaBlock|
                old(self).holds(x) && !Self::same_block(x, block) implies returned[x.chunk
                - self.offset].live@.dom().contains(x.range.start as int) by {}
        }
        let mut released: Vec<Memory> = Vec::new();
        while self.chunks.len() > 1 && self.chunks[0].used_blocks == 0
            invariant
                self.same_setup(*old(self)),
                returned.len() == total,
                total * self.chunk_size <= u64::MAX,
                released@.len() < total,
                self.chunks@ == returned.subrange(released@.len() as int, total as int),
                self.offset == old(self).offset + released@.len(),
                old(self).offset + total <= u64::MAX,
                forall|k: int| 0 <= k < released@.len() ==> (#[trigger] returned[k]).used_blocks == 0,
                forall|k: int|
                    0 <= k < released@.len() ==> #[trigger] released@[k] == returned[k].memory,
            decreases self.chunks@.len(),
        {
            let ghost gone = released@.len() as int;
            let head = self.chunks.pop_front().unwrap();
            assert(head == returned[gone]);
            released.push(head.memory);
            proof {
                assert(self.chunks@ =~= returned.subrange(gone + 1, total as int));
            }
            self.offset = self.offset + 1;
        }
        proof {
            let gone = released@.len() as int;
            assert(self.chunks@.len() == total - gone);
            assert(self.chunks@.len() * self.chunk_size == total * self.chunk_size - gone
                * self.chunk_size) by (nonlinear_arith)
                requires
                    self.chunks@.len() == total - gone,
            ;
            assert forall|i: int| 0 <= i < self.chunks@.len() implies (#[trigger] self.chunks@[i]).wf(
                self.chunk_size,
            ) by {
                assert(self.chunks@[i] == returned[i + gone]);
            }
            assert forall|x: ArenaBlock|
                old(self).holds(x) && !Self::same_block(x, block) implies self.holds(x) by {
                let ix = x.chunk - old(self).offset;
                assert(returned[ix].live@.dom().contains(x.range.start as int));
                assert(returned[ix].wf(self.chunk_size));
                assert(returned[ix].used_blocks > 0) by {
                    if returned[ix].live@.dom().len() == 0 {
                        returned[ix].live@.dom().lemma_len0_is_empty();
                    }
                }
                assert(ix >= gone);
                assert(self.chunks@[ix - gone] == returned[ix]);
            }
            assert forall|x: ArenaBlock| self.holds(x) implies old(self).holds(x) by {
                let i = x.chunk - self.offset;
                assert(self.chunks@[i] == returned[i + gone]);
            }
            assert(!self.holds(block)) by {
                if self.holds(block) {
                    let i = block.chunk - self.offset;
                    assert(self.chunks@[i] == returned[i + gone]);
                }
            }
        }
        released
    }

    /// Gives up the arena. Returns the raw allocations of its chunks.
    pub fn dispose(self) -> (released: Vec<Memory>)
        requires
            self.wf(),
            self.idle(),
        ensures
            released@.len() == self.chunks@.len(),
            forall|k: int|
                0 <= k < released@.len() ==> #[trigger] released@[k] == self.chunks@[k].memory,
    {
        let mut chunks = self.chunks;
        let ghost all = chunks@;
        let mut released: Vec<Memory> = Vec::new();
        while chunks.len() > 0
            invariant
                released@.len() <= all.len(),
                chunks@ == all.subrange(released@.len() as int, all.len() as int),
                forall|k: int| 0 <= k < released@.len() ==> #[trigger] released@[k] == all[k].memory,
            decreases chunks@.len(),
        {
            let ghost gone = released@.len() as int;
            let head = chunks.pop_front().unwrap();
            assert(head == all[gone]);
            released.push(head.memory);
            assert(chunks@ =~= all.subrange(gone + 1, all.len() as int));
        }
        released
    }

    /// The raw allocation that `block` lies in.
    pub open spec fn memory_of(self, block: ArenaBlock) -> Memory {
        self.chunks@[block.chunk - self.offset].memory
    }

    /// A block lies inside its raw allocation.
    pub proof fn lemma_block_inside(self, block: ArenaBlock)
        requires
            self.wf(),
            self.holds(block),
        ensures
            block.range.start <= block.range.end <= self.memory_of(block).size,
            self.memory_of(block).wf(),
            self.memory_of(block).raw == block.raw,
            self.memory_of(block).properties == block.properties,
    {
        assert(self.chunks@[block.chunk - self.offset].wf(self.chunk_size));
    }

    /// The raw allocation that `block` lies in.
    pub fn memory(&self, block: &ArenaBlock) -> (m: &Memory)
        requires
            self.wf(),
            self.holds(*block),
        ensures
            *m == self.memory_of(*block),
    {
        let len: usize = self.chunks.len();
        assert(block.chunk - self.offset < len);
        let at: usize = (block.chunk - self.offset) as usize;
        &self.chunks[at].memory
    }

    /// Records another state of the mapping of the raw allocation that
    /// `block` lies in.
    pub fn set_mapping(&mut self, block: &ArenaBlock, host: Option<usize>, mapped: u64)
        requires
            old(self).wf(),
            old(self).holds(*block),
            old(self).memory_of(*block).with_mapping(host, mapped).wf(),
        ensures
            final(self).wf(),
            final(self).same_setup(*old(self)),
            final(self).offset == old(self).offset,
            final(self).resident() == old(self).resident(),
            final(self).idle() == old(self).idle(),
            forall|x: ArenaBlock| #![trigger old(self).holds(x)] old(self).holds(x) ==> final(self).holds(x),
            forall|x: ArenaBlock| #![trigger final(self).holds(x)] final(self).holds(x) ==> old(self).holds(x),
            final(self).chunks@ == old(self).chunks@.update(
                block.chunk - old(self).offset,
                ArenaChunk {
                    memory: old(self).memory_of(*block).with_mapping(host, mapped),
                    ..old(self).chunks@[block.chunk - old(self).offset]
                },
            ),
    {
        let len: usize = self.chunks.len();
        assert(block.chunk - self.offset < len);
        let at: usize = (block.chunk - self.offset) as usize;
        let ghost before = self.chunks@;
        let mut chunk = self.chunks.remove(at).unwrap();
        chunk.memory.set_mapping(host, mapped);
        self.chunks.insert(at, chunk);
        proof {
            assert(self.chunks@ =~= before.update(at as int, chunk));
            assert(self.chunks@.len() * self.chunk_size == before.len() * self.chunk_size);
            assert forall|i: int| 0 <= i < self.chunks@.len() implies (#[trigger] self.chunks@[i]).wf(
                self.chunk_size,
            ) by {
                assert(before[i].wf(self.chunk_size));
            }
            if old(self).idle() {
                assert forall|i: int| 0 <= i < self.chunks@.len() implies (
                #[trigger] self.chunks@[i]).used_blocks == 0 by {
                    assert(before[i].used_blocks == 0);
                }
            }
            if self.idle() {
                assert forall|i: int| 0 <= i < before.len() implies (#[trigger] before[i]).used_blocks
                    == 0 by {
                    assert(self.chunks@[i].used_blocks == 0);
                }
            }
        }
    }

    /// What can be told of a block that is out without knowing which
    /// blocks were handed out: its chunk is there and has blocks out, it
    /// lies in the part of the chunk that was given out, and it has the
    /// chunk's handle and the arena's properties.
    pub open spec fn plausible(self, block: ArenaBlock) -> bool {
        let i = block.chunk - self.offset;
        &&& 0 <= i < self.chunks@.len()
        &&& self.chunks@[i].used_blocks > 0
        &&& block.range.start < block.range.end <= self.chunks@[i].cursor
        &&& block.raw == self.chunks@[i].memory.raw
        &&& block.properties == self.properties
    }

    /// A block that is out is plausible.
    pub proof fn lemma_plausible(self, block: ArenaBlock)
        requires
            self.wf(),
            self.holds(block),
        ensures
            self.plausible(block),
    {
        let chunk = self.chunks@[block.chunk - self.offset];
        assert(chunk.wf(self.chunk_size));
        if chunk.live@.dom().len() == 0 {
            chunk.live@.dom().lemma_len0_is_empty();
        }
    }

    /// Whether `block` may be out of this arena.
    pub fn is_plausible(&self, block: &ArenaBlock) -> (b: bool)
        requires
            self.wf(),
        ensures
            b == self.plausible(*block),
    {
        let len: usize = self.chunks.len();
        if block.chunk < self.offset || block.chunk - self.offset >= len as u64 {
            return false;
        }
        let at: usize = (block.chunk - self.offset) as usize;
        let chunk = &self.chunks[at];
        chunk.used_blocks > 0 && block.range.start < block.range.end && block.range.end
            <= chunk.cursor && block.raw == chunk.memory.raw && block.properties == self.properties
    }
}

} // verus!
