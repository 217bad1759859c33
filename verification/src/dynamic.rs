//! The dynamic allocator: blocks of power-of-two sizes, each size class
//! with chunks of its own whose slots a bitmap keeps track of.

use vstd::prelude::*;
use vstd::arithmetic::power2::is_pow2;
use std::ops::Range;
use crate::bitmap::{
    all_set, bit_set, cleared, lemma_cleared, lemma_marked, lemma_nonzero, lemma_one,
    lemma_some_bit, lowest_clear, marked, none_beyond,
};
use crate::memory::Memory;
use crate::properties::MemoryProperties;
use crate::util::{
    is_power_of_two, lemma_multiple_of_larger_pow2, lemma_pow2_gap, lemma_sum_bounds,
    lemma_sum_nonnegative, lemma_sum_push, lemma_sum_update, lemma_sum_zero, max_of, seq_sum,
};

verus! {

/// One chunk of a size class: a raw allocation cut into equal slots.
pub struct DynamicChunk {
    /// The raw allocation.
    pub memory: Memory,
    /// The slots that are out, one bit each.
    pub occupied: u64,
}

impl DynamicChunk {
    /// A chunk that is kept has a block out.
    pub open spec fn wf(self, bytes: int) -> bool {
        &&& self.memory.wf()
        &&& self.memory.size == bytes
        &&& self.occupied != 0
    }
}

/// The chunks of one block size.
pub struct SizeClass {
    /// Size of every block of the class.
    pub block_size: u64,
    /// The chunks by number; a chunk that went back to the device leaves
    /// its number vacant.
    pub chunks: Vec<Option<DynamicChunk>>,
}

/// One for a chunk that is there, nothing for a vacant number.
pub open spec fn presence(chunks: Seq<Option<DynamicChunk>>) -> Seq<int> {
    Seq::new(
        chunks.len(),
        |c: int|
            if chunks[c] is Some {
                1int
            } else {
                0int
            },
    )
}

impl SizeClass {
    /// Bytes of one chunk with `count` slots.
    pub open spec fn chunk_bytes(self, count: u32) -> int {
        self.block_size * count
    }

    pub open spec fn wf(self, count: u32) -> bool {
        &&& 1 <= count <= 64
        &&& self.block_size > 0
        &&& self.chunk_bytes(count) <= u64::MAX
        &&& forall|c: int|
            0 <= c < self.chunks@.len() ==> ((#[trigger] self.chunks@[c]) matches Some(chunk)
                ==> chunk.wf(self.chunk_bytes(count)) && none_beyond(chunk.occupied, count))
    }

    /// A chunk that is held has a slot out.
    pub proof fn lemma_chunk_has_block(self, chunk: int, count: u32)
        requires
            self.wf(count),
            0 <= chunk < self.chunks@.len(),
            self.chunks@[chunk] is Some,
        ensures
            exists|s: u32| self.has(chunk, s, count),
    {
        let bits = self.chunks@[chunk]->0.occupied;
        lemma_some_bit(bits);
        let s = choose|s: u32| s < 64 && #[trigger] bit_set(bits, s);
        assert(self.has(chunk, s, count));
    }

    /// Number of chunks held.
    pub open spec fn present(self) -> int {
        seq_sum(presence(self.chunks@))
    }

    /// Bytes of raw memory held.
    pub open spec fn resident(self, count: u32) -> int {
        self.present() * self.chunk_bytes(count)
    }

    /// No chunk is held.
    pub open spec fn vacant(self) -> bool {
        forall|c: int| 0 <= c < self.chunks@.len() ==> (#[trigger] self.chunks@[c]) is None
    }

    /// Whether slot `slot` of chunk `chunk` is out.
    pub open spec fn has(self, chunk: int, slot: u32, count: u32) -> bool {
        &&& 0 <= chunk < self.chunks@.len()
        &&& slot < count
        &&& self.chunks@[chunk] matches Some(c) && bit_set(c.occupied, slot)
    }

    /// A class without chunks holds no memory.
    pub proof fn lemma_vacant(self, count: u32)
        requires
            self.vacant(),
        ensures
            self.present() == 0,
            self.resident(count) == 0,
    {
        lemma_sum_zero(presence(self.chunks@));
        assert(0 * self.chunk_bytes(count) == 0) by (nonlinear_arith);
    }

    /// A class holds at least the chunk it has.
    pub proof fn lemma_present(self, chunk: int, count: u32)
        requires
            self.wf(count),
            0 <= chunk < self.chunks@.len(),
            self.chunks@[chunk] is Some,
        ensures
            self.present() >= 1,
            self.resident(count) >= self.chunk_bytes(count),
            self.chunk_bytes(count) >= 0,
    {
        lemma_sum_bounds(presence(self.chunks@), chunk);
        assert(self.present() * self.chunk_bytes(count) >= self.chunk_bytes(count))
            by (nonlinear_arith)
            requires
                self.present() >= 1,
                self.chunk_bytes(count) >= 0,
        ;
    }

    /// The bytes held are never negative.
    pub proof fn lemma_resident_nonnegative(self, count: u32)
        requires
            self.wf(count),
        ensures
            self.present() >= 0,
            self.resident(count) >= 0,
    {
        lemma_sum_nonnegative(presence(self.chunks@));
        assert(self.present() * self.chunk_bytes(count) >= 0) by (nonlinear_arith)
            requires
                self.present() >= 0,
                self.chunk_bytes(count) >= 0,
        ;
    }

    /// Every chunk held has all of its `count` slots out.
    pub open spec fn full(self, count: u32) -> bool {
        forall|c: int|
            0 <= c < self.chunks@.len() ==> ((#[trigger] self.chunks@[c]) matches Some(chunk)
                ==> all_set(chunk.occupied, count))
    }

    /// Whether slot `slot` of chunk `at` is the next to hand out: the
    /// lowest free slot of the first chunk that has one.
    pub open spec fn next_free(self, at: int, slot: u32, count: u32) -> bool {
        &&& 0 <= at < self.chunks@.len()
        &&& slot < count
        &&& self.chunks@[at] matches Some(chunk) && !bit_set(chunk.occupied, slot) && all_set(
            chunk.occupied,
            slot,
        )
        &&& forall|c: int|
            0 <= c < at ==> ((#[trigger] self.chunks@[c]) matches Some(chunk) ==> all_set(
                chunk.occupied,
                count,
            ))
    }

    /// Finds the lowest free slot of the first chunk that has one.
    /// Returns the chunk's number, the slot and the chunk's raw handle;
    /// `None` where every chunk is full.
    pub fn find(&self, count: u32) -> (r: Option<(usize, u32, u64)>)
        requires
            self.wf(count),
        ensures
            match r {
                None => self.full(count),
                Some((at, slot, raw)) => self.next_free(at as int, slot, count) && raw
                    == self.chunks@[at as int]->0.memory.raw,
            },
    {
        let mut at: usize = 0;
        while at < self.chunks.len()
            invariant
                self.wf(count),
                at <= self.chunks@.len(),
                forall|c: int|
                    0 <= c < at ==> ((#[trigger] self.chunks@[c]) matches Some(chunk) ==> all_set(
                        chunk.occupied,
                        count,
                    )),
            decreases self.chunks@.len() - at,
        {
            match &self.chunks[at] {
                Some(chunk) => match lowest_clear(chunk.occupied, count) {
                    Some(slot) => {
                        return Some((at, slot, chunk.memory.raw));
                    },
                    None => {},
                },
                None => {},
            }
            at = at + 1;
        }
        None
    }

    /// A class with a free slot is not full.
    pub proof fn lemma_next_free(self, at: int, slot: u32, count: u32)
        requires
            self.next_free(at, slot, count),
        ensures
            !self.full(count),
            !self.has(at, slot, count),
    {
    }

    /// Marks slot `slot` of chunk `at`, which is free, as out.
    pub fn mark(&mut self, at: usize, slot: u32, count: u32)
        requires
            old(self).wf(count),
            at < old(self).chunks@.len(),
            slot < count,
            old(self).chunks@[at as int] matches Some(chunk) && !bit_set(chunk.occupied, slot),
        ensures
            final(self).wf(count),
            final(self).block_size == old(self).block_size,
            final(self).present() == old(self).present(),
            final(self).chunks@ == old(self).chunks@.update(
                at as int,
                Some(
                    DynamicChunk {
                        memory: old(self).chunks@[at as int]->0.memory,
                        occupied: marked(old(self).chunks@[at as int]->0.occupied, slot),
                    },
                ),
            ),
            forall|c: int, s: u32| old(self).has(c, s, count) ==> final(self).has(c, s, count),
            forall|c: int, s: u32|
                final(self).has(c, s, count) ==> old(self).has(c, s, count) || (c == at && s
                    == slot),
            final(self).has(at as int, slot, count),
            !old(self).has(at as int, slot, count),
    {
        let ghost before = self.chunks@;
        let ghost chunk = before[at as int]->0;
        match &mut self.chunks[at] {
            Some(chunk) => {
                chunk.occupied = chunk.occupied | (1u64 << slot);
            },
            None => {},
        }
        proof {
            let after = DynamicChunk { memory: chunk.memory, occupied: marked(chunk.occupied, slot) };
            assert(self.chunks@ =~= before.update(at as int, Some(after)));
            lemma_marked(chunk.occupied, slot, slot);
            assert(none_beyond(chunk.occupied, count));
            assert forall|s: u32| count <= s < 64 implies !#[trigger] bit_set(
                after.occupied,
                s,
            ) by {
                lemma_marked(chunk.occupied, slot, s);
            }
            assert(presence(self.chunks@) =~= presence(before));
            assert forall|c: int, s: u32| old(self).has(c, s, count) implies self.has(
                c,
                s,
                count,
            ) by {
                if c == at {
                    lemma_marked(chunk.occupied, slot, s);
                }
            }
            assert forall|c: int, s: u32| self.has(c, s, count) implies old(self).has(c, s, count)
                || (c == at && s == slot) by {
                if c == at && s != slot {
                    lemma_marked(chunk.occupied, slot, s);
                }
            }
        }
    }

    /// Takes in a new chunk on `memory`, with its first slot out, under
    /// the lowest vacant number. Returns that number.
    pub fn install(&mut self, memory: Memory, count: u32) -> (at: usize)
        requires
            old(self).wf(count),
            memory.wf(),
            memory.size == old(self).chunk_bytes(count),
        ensures
            final(self).wf(count),
            final(self).block_size == old(self).block_size,
            final(self).present() == old(self).present() + 1,
            at <= old(self).chunks@.len(),
            forall|c: int| 0 <= c < at ==> (#[trigger] old(self).chunks@[c]) is Some,
            at < old(self).chunks@.len() ==> old(self).chunks@[at as int] is None && final(self).chunks@ == old(self).chunks@.update(
                at as int,
                Some(DynamicChunk { memory, occupied: 1 }),
            ),
            at == old(self).chunks@.len() ==> final(self).chunks@ == old(self).chunks@.push(
                Some(DynamicChunk { memory, occupied: 1 }),
            ),
            forall|c: int, s: u32| old(self).has(c, s, count) ==> final(self).has(c, s, count),
            forall|c: int, s: u32|
                final(self).has(c, s, count) ==> old(self).has(c, s, count) || (c == at && s == 0),
            final(self).has(at as int, 0, count),
            !old(self).has(at as int, 0, count),
    {
        let ghost before = self.chunks@;
        let mut at: usize = 0;
        while at < self.chunks.len() && self.chunks[at].is_some()
            invariant
                *self == *old(self),
                at <= self.chunks@.len(),
                forall|c: int| 0 <= c < at ==> (#[trigger] self.chunks@[c]) is Some,
            decreases self.chunks@.len() - at,
        {
            at = at + 1;
        }
        let chunk = DynamicChunk { memory, occupied: 1 };
        proof {
            lemma_one(0);
            assert forall|s: u32| count <= s < 64 implies !#[trigger] bit_set(1u64, s) by {
                lemma_one(s);
            }
        }
        if at < self.chunks.len() {
            self.chunks[at] = Some(chunk);
            proof {
                assert(self.chunks@ =~= before.update(at as int, Some(chunk)));
                assert(presence(self.chunks@) =~= presence(before).update(at as int, 1));
                lemma_sum_update(presence(before), at as int, 1);
            }
        } else {
            self.chunks.push(Some(chunk));
            proof {
                assert(presence(self.chunks@) =~= presence(before).push(1));
                lemma_sum_push(presence(before), 1);
            }
        }
        proof {
            assert forall|c: int, s: u32| self.has(c, s, count) implies old(self).has(c, s, count)
                || (c == at && s == 0) by {
                if c == at && s != 0 {
                    lemma_one(s);
                }
            }
        }
        at
    }

    /// Clears slot `slot` of chunk `chunk`. Where that leaves the chunk
    /// without a block out, the chunk leaves the class and its memory is
    /// returned.
    pub fn reclaim(&mut self, chunk: usize, slot: u32, count: u32) -> (r: Option<Memory>)
        requires
            old(self).wf(count),
            old(self).has(chunk as int, slot, count),
        ensures
            final(self).wf(count),
            final(self).block_size == old(self).block_size,
            ({
                let was = old(self).chunks@[chunk as int]->0;
                let rest = cleared(was.occupied, slot);
                if rest == 0 {
                    &&& r == Some(was.memory)
                    &&& final(self).chunks@ == old(self).chunks@.update(chunk as int, None)
                    &&& final(self).present() == old(self).present() - 1
                } else {
                    &&& r is None
                    &&& final(self).chunks@ == old(self).chunks@.update(
                        chunk as int,
                        Some(DynamicChunk { memory: was.memory, occupied: rest }),
                    )
                    &&& final(self).present() == old(self).present()
                }
            }),
            !final(self).has(chunk as int, slot, count),
            forall|c: int, s: u32|
                old(self).has(c, s, count) && !(c == chunk && s == slot) ==> final(self).has(
                    c,
                    s,
                    count,
                ),
            forall|c: int, s: u32| final(self).has(c, s, count) ==> old(self).has(c, s, count),
    {
        let ghost before = self.chunks@;
        let ghost was = before[chunk as int]->0;
        let rest: u64 = match &self.chunks[chunk] {
            Some(c) => c.occupied & !(1u64 << slot),
            None => 0,
        };
        proof {
            lemma_cleared(was.occupied, slot, slot);
            assert(none_beyond(was.occupied, count));
            assert forall|s: u32| s < 64 && s != slot implies bit_set(rest, s) == bit_set(
                was.occupied,
                s,
            ) by {
                lemma_cleared(was.occupied, slot, s);
            }
            assert(none_beyond(rest, count));
        }
        if rest == 0 {
            let gone: Option<DynamicChunk> = self.chunks[chunk].take();
            proof {
                assert(self.chunks@ =~= before.update(chunk as int, None));
                assert(presence(self.chunks@) =~= presence(before).update(chunk as int, 0));
                lemma_sum_update(presence(before), chunk as int, 0);
                assert forall|c: int, s: u32|
                    old(self).has(c, s, count) && !(c == chunk && s == slot) implies self.has(
                    c,
                    s,
                    count,
                ) by {
                    if c == chunk {
                        lemma_nonzero(rest, s);
                    }
                }
            }
            match gone {
                Some(c) => Some(c.memory),
                None => None,
            }
        } else {
            match &mut self.chunks[chunk] {
                Some(c) => {
                    c.occupied = rest;
                },
                None => {},
            }
            proof {
                assert(self.chunks@ =~= before.update(
                    chunk as int,
                    Some(DynamicChunk { memory: was.memory, occupied: rest }),
                ));
                assert(presence(self.chunks@) =~= presence(before));
            }
            None
        }
    }
}

/// Settings of a dynamic allocator.
#[derive(Clone, Copy, Debug)]
pub struct DynamicConfig {
    /// Number of blocks in each chunk.
    pub blocks_per_chunk: u32,
    /// Size of the smallest blocks.
    pub min_block: u64,
    /// Size of the largest blocks; larger requests go elsewhere.
    pub max_block: u64,
}

impl DynamicConfig {
    /// The block sizes are powers of two in order, a chunk has a power of
    /// two of slots that fit one word, and the largest chunk fits 64 bits.
    pub open spec fn valid(self) -> bool {
        &&& is_pow2(self.blocks_per_chunk as int)
        &&& self.blocks_per_chunk <= 64
        &&& is_pow2(self.min_block as int)
        &&& is_pow2(self.max_block as int)
        &&& self.min_block <= self.max_block
        &&& self.max_block * self.blocks_per_chunk <= u64::MAX
    }

    pub fn is_valid(&self) -> (b: bool)
        ensures
            b == self.valid(),
    {
        is_power_of_two(self.blocks_per_chunk as u64) && self.blocks_per_chunk <= 64
            && is_power_of_two(self.min_block) && is_power_of_two(self.max_block) && self.min_block
            <= self.max_block && self.max_block.checked_mul(self.blocks_per_chunk as u64).is_some()
    }
}

/// A block in a chunk of a size class.
#[derive(Debug)]
pub struct DynamicBlock {
    /// Handle of the chunk's raw allocation.
    pub raw: u64,
    /// Number of the size class.
    pub class: usize,
    /// Number of the chunk in its class.
    pub chunk: usize,
    /// Number of the slot in its chunk.
    pub slot: u32,
    /// The block's bytes, as offsets into the raw allocation.
    pub range: Range<u64>,
    /// Properties of the memory.
    pub properties: MemoryProperties,
}

/// Serves blocks of power-of-two sizes from `min_block` to `max_block`.
/// Class `k` holds the blocks of size `min_block` times two to the `k`.
pub struct DynamicAllocator {
    /// Index of the memory type served.
    pub memory_type: u32,
    /// Properties of that memory type.
    pub properties: MemoryProperties,
    /// The device's non-coherent atom size.
    pub atom: u64,
    /// Number of blocks in each chunk.
    pub blocks_per_chunk: u32,
    /// Size of the smallest blocks.
    pub min_block: u64,
    /// Size of the largest blocks.
    pub max_block: u64,
    /// The size classes, smallest blocks first.
    pub classes: Vec<SizeClass>,
}

/// The bytes that each class holds.
pub open spec fn class_residents(classes: Seq<SizeClass>, count: u32) -> Seq<int> {
    Seq::new(classes.len(), |k: int| classes[k].resident(count))
}

impl DynamicAllocator {
    pub open spec fn wf(self) -> bool {
        &&& is_pow2(self.atom as int)
        &&& self.classes@.len() >= 1
        &&& self.classes@[0].block_size == self.min_block
        &&& self.classes@[self.classes@.len() - 1].block_size == self.max_block
        &&& forall|k: int|
            0 <= k < self.classes@.len() ==> (#[trigger] self.classes@[k]).wf(
                self.blocks_per_chunk,
            ) && is_pow2(self.classes@[k].block_size as int)
        &&& forall|k: int|
            0 <= k < self.classes@.len() - 1 ==> (#[trigger] self.classes@[k + 1]).block_size == 2
                * self.classes@[k].block_size
        &&& forall|k: int, c: int|
            0 <= k < self.classes@.len() && 0 <= c < self.classes@[k].chunks@.len() ==> ((
            #[trigger] self.classes@[k].chunks@[c]) matches Some(chunk) ==> chunk.memory.properties
                == self.properties)
        &&& self.resident() <= u64::MAX
    }

    /// Everything but the chunks.
    pub open spec fn same_setup(self, other: DynamicAllocator) -> bool {
        &&& self.memory_type == other.memory_type
        &&& self.properties == other.properties
        &&& self.atom == other.atom
        &&& self.blocks_per_chunk == other.blocks_per_chunk
        &&& self.min_block == other.min_block
        &&& self.max_block == other.max_block
        &&& self.classes@.len() == other.classes@.len()
        &&& forall|k: int|
            0 <= k < self.classes@.len() ==> (#[trigger] self.classes@[k]).block_size
                == other.classes@[k].block_size
    }

    /// Bytes of raw memory held.
    pub open spec fn resident(self) -> int {
        seq_sum(class_residents(self.classes@, self.blocks_per_chunk))
    }

    /// No chunk is held, so no block is out.
    pub open spec fn idle(self) -> bool {
        forall|k: int| 0 <= k < self.classes@.len() ==> (#[trigger] self.classes@[k]).vacant()
    }

    /// The alignment a block gets: what was asked for, and for
    /// host-visible memory at least the atom.
    pub open spec fn effective_align(self, align: u64) -> int {
        if self.properties.is_host_visible() {
            max_of(align as int, self.atom as int)
        } else {
            align as int
        }
    }

    /// The least size of a block that can serve the request.
    pub open spec fn need(self, size: u64, align: u64) -> int {
        max_of(size as int, self.effective_align(align))
    }

    /// Whether the request is small enough for this allocator.
    pub open spec fn serves(self, size: u64, align: u64) -> bool {
        self.need(size, align) <= self.max_block
    }

    /// Whether class `k` is the one with the smallest blocks of at least
    /// `need` bytes.
    pub open spec fn is_class_of(self, k: int, need: int) -> bool {
        &&& 0 <= k < self.classes@.len()
        &&& self.classes@[k].block_size >= need
        &&& k == 0 || self.classes@[k - 1].block_size < need
    }

    /// Whether `block` is out of this allocator.
    pub open spec fn holds(self, block: DynamicBlock) -> bool {
        let k = block.class as int;
        &&& 0 <= k < self.classes@.len()
        &&& self.classes@[k].has(block.chunk as int, block.slot, self.blocks_per_chunk)
        &&& block.raw == self.classes@[k].chunks@[block.chunk as int]->0.memory.raw
        &&& block.range.start == block.slot * self.classes@[k].block_size
        &&& block.range.end == block.range.start + self.classes@[k].block_size
        &&& block.properties == self.properties
    }

    /// Whether two blocks are the same allocation of this allocator.
    pub open spec fn same_block(a: DynamicBlock, b: DynamicBlock) -> bool {
        a.class == b.class && a.chunk == b.chunk && a.slot == b.slot
    }

    /// An allocator without a block out holds no memory.
    pub proof fn lemma_idle(self)
        requires
            self.idle(),
        ensures
            self.resident() == 0,
    {
        let residents = class_residents(self.classes@, self.blocks_per_chunk);
        assert forall|k: int| 0 <= k < residents.len() implies residents[k] == 0 by {
            self.classes@[k].lemma_vacant(self.blocks_per_chunk);
        }
        lemma_sum_zero(residents);
    }

    /// The bytes held cover every chunk that is there.
    pub proof fn lemma_resident_covers(self, k: int, chunk: int)
        requires
            self.wf(),
            0 <= k < self.classes@.len(),
            0 <= chunk < self.classes@[k].chunks@.len(),
            self.classes@[k].chunks@[chunk] is Some,
        ensures
            self.classes@[k].chunk_bytes(self.blocks_per_chunk) <= self.resident(),
            self.resident() >= 0,
    {
        let residents = class_residents(self.classes@, self.blocks_per_chunk);
        assert forall|j: int| 0 <= j < residents.len() implies residents[j] >= 0 by {
            self.classes@[j].lemma_resident_nonnegative(self.blocks_per_chunk);
        }
        lemma_sum_bounds(residents, k);
        lemma_sum_nonnegative(residents);
        self.classes@[k].lemma_present(chunk, self.blocks_per_chunk);
    }

    /// The bytes held are never negative.
    pub proof fn lemma_resident_nonnegative(self)
        requires
            self.wf(),
        ensures
            self.resident() >= 0,
    {
        let residents = class_residents(self.classes@, self.blocks_per_chunk);
        assert forall|j: int| 0 <= j < residents.len() implies residents[j] >= 0 by {
            self.classes@[j].lemma_resident_nonnegative(self.blocks_per_chunk);
        }
        lemma_sum_nonnegative(residents);
    }

    /// A block of the class that serves a request is large enough for it
    /// and every slot of that class starts on the alignment asked for, and
    /// on the atom where the memory is host-visible.
    pub proof fn lemma_class_fits(self, k: int, slot: u32, size: u64, align: u64)
        requires
            self.wf(),
            is_pow2(align as int),
            self.is_class_of(k, self.need(size, align)),
        ensures
            self.classes@[k].block_size >= size,
            (slot * self.classes@[k].block_size) % (align as int) == 0,
            self.properties.is_host_visible() ==> (slot * self.classes@[k].block_size) % (
            self.atom as int) == 0,
    {
        let block_size = self.classes@[k].block_size as int;
        assert(self.classes@[k].wf(self.blocks_per_chunk));
        let start = slot * block_size;
        assert(start >= 0) by (nonlinear_arith)
            requires
                start == slot * block_size,
                block_size >= 0,
                slot >= 0,
        ;
        vstd::arithmetic::div_mod::lemma_mod_multiples_basic(slot as int, block_size);
        lemma_multiple_of_larger_pow2(start, align as int, block_size);
        if self.properties.is_host_visible() {
            lemma_multiple_of_larger_pow2(start, self.atom as int, block_size);
        }
    }

    /// An allocator without chunks.
    pub fn new(memory_type: u32, properties: MemoryProperties, config: DynamicConfig, atom: u64) -> (a:
        Self)
        requires
            config.valid(),
            is_pow2(atom as int),
        ensures
            a.wf(),
            a.idle(),
            a.memory_type == memory_type,
            a.properties == properties,
            a.atom == atom,
            a.blocks_per_chunk == config.blocks_per_chunk,
            a.min_block == config.min_block,
            a.max_block == config.max_block,
    {
        let count: u32 = config.blocks_per_chunk;
        let mut classes: Vec<SizeClass> = Vec::new();
        let mut block_size: u64 = config.min_block;
        proof {
            reveal(is_pow2);
            assert(block_size * count <= config.max_block * count) by (nonlinear_arith)
                requires
                    block_size <= config.max_block,
                    count >= 0,
            ;
        }
        classes.push(SizeClass { block_size, chunks: Vec::new() });
        while block_size < config.max_block
            invariant
                config.valid(),
                count == config.blocks_per_chunk,
                is_pow2(block_size as int),
                block_size <= config.max_block,
                classes@.len() >= 1,
                classes@[0].block_size == config.min_block,
                classes@[classes@.len() - 1].block_size == block_size,
                forall|k: int|
                    0 <= k < classes@.len() ==> (#[trigger] classes@[k]).wf(count) && is_pow2(
                        classes@[k].block_size as int,
                    ) && classes@[k].vacant(),
                forall|k: int|
                    0 <= k < classes@.len() - 1 ==> (#[trigger] classes@[k + 1]).block_size == 2
                        * classes@[k].block_size,
            decreases config.max_block - block_size,
        {
            proof {
                reveal(is_pow2);
                lemma_pow2_gap(block_size as int, config.max_block as int);
            }
            block_size = block_size * 2;
            proof {
                assert(block_size * count <= config.max_block * count) by (nonlinear_arith)
                    requires
                        block_size <= config.max_block,
                        count >= 0,
                ;
            }
            classes.push(SizeClass { block_size, chunks: Vec::new() });
        }
        let a = DynamicAllocator {
            memory_type,
            properties,
            atom,
            blocks_per_chunk: count,
            min_block: config.min_block,
            max_block: config.max_block,
            classes,
        };
        proof {
            a.lemma_idle();
        }
        a
    }

    /// The set of properties a memory type needs to have a dynamic
    /// allocator: none.
    pub fn properties_required() -> (flags: u32)
        ensures
            flags == 0,
    {
        0
    }

    /// Largest block served.
    pub fn max_allocation(&self) -> (m: u64)
        ensures
            m == self.max_block,
    {
        self.max_block
    }

    /// Whether a request of `size` bytes aligned to `align` is small
    /// enough for this allocator.
    pub fn can_serve(&self, size: u64, align: u64) -> (b: bool)
        ensures
            b == self.serves(size, align),
    {
        size <= self.max_block && align <= self.max_block && (!self.properties.host_visible()
            || self.atom <= self.max_block)
    }

    /// Whether no block is out.
    pub fn is_idle(&self) -> (b: bool)
        ensures
            b == self.idle(),
    {
        let mut k: usize = 0;
        while k < self.classes.len()
            invariant
                k <= self.classes@.len(),
                forall|j: int| 0 <= j < k ==> (#[trigger] self.classes@[j]).vacant(),
            decreases self.classes@.len() - k,
        {
            let mut c: usize = 0;
            while c < self.classes[k].chunks.len()
                invariant
                    k < self.classes@.len(),
                    c <= self.classes@[k as int].chunks@.len(),
                    forall|i: int| 0 <= i < c ==> (#[trigger] self.classes@[k as int].chunks@[i]) is None,
                decreases self.classes@[k as int].chunks@.len() - c,
            {
                if self.classes[k].chunks[c].is_some() {
                    assert(!self.classes@[k as int].vacant());
                    return false;
                }
                c = c + 1;
            }
            k = k + 1;
        }
        true
    }

    /// The class with the smallest blocks that serve the request.
    pub fn class_for(&self, size: u64, align: u64) -> (k: usize)
        requires
            self.wf(),
            self.serves(size, align),
        ensures
            self.is_class_of(k as int, self.need(size, align)),
    {
        let step: u64 = if self.properties.host_visible() && self.atom > align {
            self.atom
        } else {
            align
        };
        let need: u64 = if size >= step {
            size
        } else {
            step
        };
        let count: usize = self.classes.len();
        let mut k: usize = 0;
        while self.classes[k].block_size < need
            invariant
                self.wf(),
                count == self.classes@.len(),
                need == self.need(size, align),
                need <= self.max_block,
                0 <= k < self.classes@.len(),
                k == 0 || self.classes@[k - 1].block_size < need,
            decreases self.classes@.len() - k,
        {
            assert(self.classes@[self.classes@.len() - 1].block_size == self.max_block);
            k = k + 1;
        }
        k
    }

    /// Bytes of one chunk of class `k`.
    pub fn chunk_size(&self, k: usize) -> (bytes: u64)
        requires
            self.wf(),
            k < self.classes@.len(),
        ensures
            bytes == self.classes@[k as int].chunk_bytes(self.blocks_per_chunk),
    {
        assert(self.classes@[k as int].wf(self.blocks_per_chunk));
        self.classes[k].block_size * (self.blocks_per_chunk as u64)
    }

    /// Whether every class but `k` is as it is in `other`.
    pub open spec fn same_but(self, other: DynamicAllocator, k: int) -> bool {
        &&& self.classes@.len() == other.classes@.len()
        &&& forall|j: int|
            0 <= j < self.classes@.len() && j != k ==> #[trigger] self.classes@[j]
                == other.classes@[j]
    }

    proof fn lemma_resident_change(self, other: DynamicAllocator, k: int, chunks: int)
        requires
            self.wf(),
            other.same_but(self, k),
            other.blocks_per_chunk == self.blocks_per_chunk,
            0 <= k < self.classes@.len(),
            other.classes@[k].block_size == self.classes@[k].block_size,
            other.classes@[k].present() == self.classes@[k].present() + chunks,
        ensures
            other.resident() == self.resident() + chunks * self.classes@[k].chunk_bytes(
                self.blocks_per_chunk,
            ),
    {
        let count = self.blocks_per_chunk;
        let before = class_residents(self.classes@, count);
        let after = class_residents(other.classes@, count);
        let bytes = self.classes@[k].chunk_bytes(count);
        let present = self.classes@[k].present();
        assert((present + chunks) * bytes == present * bytes + chunks * bytes)
            by (nonlinear_arith);
        assert(after =~= before.update(k, after[k]));
        lemma_sum_update(before, k, after[k]);
    }

    /// Cuts a block for the request from the first chunk of its class that
    /// has a free slot, taking the lowest free slot. `None`, with nothing
    /// changed, where the class has no chunk with a free slot.
    pub fn allocate(&mut self, size: u64, align: u64) -> (r: Option<DynamicBlock>)
        requires
            old(self).wf(),
            size > 0,
            is_pow2(align as int),
            old(self).serves(size, align),
        ensures
            final(self).wf(),
            final(self).same_setup(*old(self)),
            final(self).resident() == old(self).resident(),
            forall|x: DynamicBlock| old(self).holds(x) ==> final(self).holds(x),
            ({
                let k = old(self).class_index(old(self).need(size, align));
                let count = old(self).blocks_per_chunk;
                &&& old(self).is_class_of(k, old(self).need(size, align))
                &&& match r {
                    None => old(self).classes@[k].full(count) && *final(self) == *old(self),
                    Some(block) => {
                        &&& block.class == k
                        &&& old(self).classes@[k].next_free(block.chunk as int, block.slot, count)
                        &&& !old(self).classes@[k].full(count)
                        &&& final(self).same_but(*old(self), k)
                        &&& final(self).classes@[k].chunks@ == old(self).classes@[k].chunks@.update(
                            block.chunk as int,
                            Some(
                                DynamicChunk {
                                    memory: old(self).classes@[k].chunks@[block.chunk as int]->0.memory,
                                    occupied: marked(
                                        old(self).classes@[k].chunks@[block.chunk as int]->0.occupied,
                                        block.slot,
                                    ),
                                },
                            ),
                        )
                        &&& final(self).holds(block)
                        &&& !old(self).holds(block)
                        &&& forall|x: DynamicBlock|
                            #![trigger final(self).holds(x)]
                            final(self).holds(x) ==> old(self).holds(x) || Self::same_block(
                                x,
                                block,
                            )
                        &&& block.range.end - block.range.start >= size
                        &&& block.range.start % align == 0
                        &&& old(self).properties.is_host_visible() ==> block.range.start % old(self).atom == 0
                    },
                }
            }),
    {
        let k: usize = self.class_for(size, align);
        let count: u32 = self.blocks_per_chunk;
        proof {
            assert(self.classes@[k as int].wf(count));
            let need = self.need(size, align);
            self.lemma_class_unique(self.class_index(need), k as int, need);
        }
        let block_size: u64 = self.classes[k].block_size;
        let ghost before = *self;
        match self.classes[k].find(count) {
            None => None,
            Some((chunk, slot, raw)) => {
                proof {
                    before.classes@[k as int].lemma_next_free(chunk as int, slot, count);
                }
                self.classes[k].mark(chunk, slot, count);
                proof {
                    before.lemma_resident_change(*self, k as int, 0);
                    before.lemma_class_fits(k as int, slot, size, align);
                    assert(slot * block_size + block_size <= block_size * count)
                        by (nonlinear_arith)
                        requires
                            slot < count,
                            block_size >= 0,
                    ;
                    assert(slot * block_size >= 0) by (nonlinear_arith)
                        requires
                            block_size >= 0,
                            slot >= 0,
                    ;
                    assert forall|j: int|
                        0 <= j < self.classes@.len() implies (#[trigger] self.classes@[j]).wf(
                        self.blocks_per_chunk,
                    ) && is_pow2(self.classes@[j].block_size as int) by {
                        if j != k {
                            assert(self.classes@[j] == before.classes@[j]);
                        }
                    }
                    assert forall|j: int| 0 <= j < self.classes@.len() - 1 implies (
                    #[trigger] self.classes@[j + 1]).block_size == 2
                        * self.classes@[j].block_size by {
                        assert(before.classes@[j + 1].block_size == 2
                            * before.classes@[j].block_size);
                    }
                    assert forall|x: DynamicBlock| before.holds(x) implies self.holds(x) by {
                        if x.class != k {
                            assert(self.classes@[x.class as int] == before.classes@[x.class as int]);
                        }
                    }
                    assert forall|x: DynamicBlock| self.holds(x) implies before.holds(x) || (x.class
                        == k && x.chunk == chunk && x.slot == slot) by {
                        if x.class != k {
                            assert(self.classes@[x.class as int] == before.classes@[x.class as int]);
                        }
                    }
                }
                let start: u64 = (slot as u64) * block_size;
                Some(
                    DynamicBlock {
                        raw,
                        class: k,
                        chunk,
                        slot,
                        range: start..start + block_size,
                        properties: self.properties,
                    },
                )
            },
        }
    }

    /// Block sizes grow with the class number.
    pub proof fn lemma_classes_ordered(self, j: int, k: int)
        requires
            self.wf(),
            0 <= j < k < self.classes@.len(),
        ensures
            self.classes@[j].block_size < self.classes@[k].block_size,
        decreases k - j,
    {
        assert(self.classes@[k - 1 + 1].block_size == 2 * self.classes@[k - 1].block_size);
        assert(self.classes@[k - 1].wf(self.blocks_per_chunk));
        if j < k - 1 {
            self.lemma_classes_ordered(j, k - 1);
        }
    }

    /// The class that serves a request for a block of at least `need`
    /// bytes.
    pub open spec fn class_index(self, need: int) -> int {
        choose|k: int| self.is_class_of(k, need)
    }

    /// A request has one class.
    pub proof fn lemma_class_unique(self, j: int, k: int, need: int)
        requires
            self.wf(),
            self.is_class_of(j, need),
            self.is_class_of(k, need),
        ensures
            j == k,
    {
        if j < k {
            if j < k - 1 {
                self.lemma_classes_ordered(j, k - 1);
            }
        } else if k < j {
            if k < j - 1 {
                self.lemma_classes_ordered(k, j - 1);
            }
        }
    }

    /// Takes in `memory`, a new chunk of class `class` that the device has
    /// just handed out, and cuts the chunk's first block.
    pub fn grow(&mut self, class: usize, memory: Memory) -> (block: DynamicBlock)
        requires
            old(self).wf(),
            class < old(self).classes@.len(),
            memory.wf(),
            memory.size == old(self).classes@[class as int].chunk_bytes(old(self).blocks_per_chunk),
            memory.properties == old(self).properties,
            old(self).resident() + old(self).classes@[class as int].chunk_bytes(
                old(self).blocks_per_chunk,
            ) <= u64::MAX,
        ensures
            final(self).wf(),
            final(self).same_setup(*old(self)),
            final(self).same_but(*old(self), class as int),
            final(self).resident() == old(self).resident() + old(self).classes@[class as int].chunk_bytes(old(self).blocks_per_chunk),
            forall|x: DynamicBlock| old(self).holds(x) ==> final(self).holds(x),
            forall|x: DynamicBlock|
                #![trigger final(self).holds(x)]
                final(self).holds(x) ==> old(self).holds(x) || Self::same_block(x, block),
            ({
                let k = class as int;
                let at = block.chunk as int;
                let chunk = DynamicChunk { memory, occupied: 1 };
                &&& at <= old(self).classes@[k].chunks@.len()
                &&& forall|c: int| 0 <= c < at ==> (#[trigger] old(self).classes@[k].chunks@[c]) is Some
                &&& at < old(self).classes@[k].chunks@.len() ==> old(self).classes@[k].chunks@[at] is None
                    && final(self).classes@[k].chunks@ == old(self).classes@[k].chunks@.update(
                    at,
                    Some(chunk),
                )
                &&& at == old(self).classes@[k].chunks@.len() ==> final(self).classes@[k].chunks@
                    == old(self).classes@[k].chunks@.push(Some(chunk))
            }),
            block.class == class,
            block.raw == memory.raw,
            block.slot == 0,
            block.range == (Range { start: 0, end: old(self).classes@[class as int].block_size }),
            block.properties == old(self).properties,
            final(self).holds(block),
            !old(self).holds(block),
    {
        let count: u32 = self.blocks_per_chunk;
        assert(self.classes@[class as int].wf(count));
        let block_size: u64 = self.classes[class].block_size;
        let raw: u64 = memory.raw;
        let ghost before = *self;
        let chunk: usize = self.classes[class].install(memory, count);
        proof {
            before.lemma_resident_change(*self, class as int, 1);
            assert forall|j: int|
                0 <= j < self.classes@.len() implies (#[trigger] self.classes@[j]).wf(
                self.blocks_per_chunk,
            ) && is_pow2(self.classes@[j].block_size as int) by {
                if j != class {
                    assert(self.classes@[j] == before.classes@[j]);
                }
            }
            assert forall|j: int| 0 <= j < self.classes@.len() - 1 implies (
            #[trigger] self.classes@[j + 1]).block_size == 2 * self.classes@[j].block_size by {
                assert(before.classes@[j + 1].block_size == 2 * before.classes@[j].block_size);
            }
            assert forall|x: DynamicBlock| before.holds(x) implies self.holds(x) by {
                if x.class != class {
                    assert(self.classes@[x.class as int] == before.classes@[x.class as int]);
                }
            }
            assert forall|x: DynamicBlock| self.holds(x) implies before.holds(x)
                || Self::same_block(x, DynamicBlock {
                    raw,
                    class,
                    chunk,
                    slot: 0,
                    range: Range { start: 0, end: block_size },
                    properties: self.properties,
                }) by {
                if x.class != class {
                    assert(self.classes@[x.class as int] == before.classes@[x.class as int]);
                }
            }
        }
        DynamicBlock {
            raw,
            class,
            chunk,
            slot: 0,
            range: 0..block_size,
            properties: self.properties,
        }
    }

    /// Takes a block back. Where that leaves its chunk without a block
    /// out, the chunk leaves the allocator and its raw allocation is
    /// returned.
    pub fn free(&mut self, block: DynamicBlock) -> (r: Option<Memory>)
        requires
            old(self).wf(),
            old(self).holds(block),
        ensures
            final(self).wf(),
            final(self).same_setup(*old(self)),
            final(self).same_but(*old(self), block.class as int),
            !final(self).holds(block),
            forall|x: DynamicBlock|
                #![trigger old(self).holds(x)]
                old(self).holds(x) && !Self::same_block(x, block) ==> final(self).holds(x),
            forall|x: DynamicBlock| final(self).holds(x) ==> old(self).holds(x),
            ({
                let k = block.class as int;
                let at = block.chunk as int;
                let was = old(self).classes@[k].chunks@[at]->0;
                let rest = cleared(was.occupied, block.slot);
                if rest == 0 {
                    &&& r == Some(was.memory)
                    &&& final(self).resident() == old(self).resident() - old(self).classes@[k].chunk_bytes(old(self).blocks_per_chunk)
                    &&& final(self).classes@[k].chunks@ == old(self).classes@[k].chunks@.update(
                        at,
                        None,
                    )
                } else {
                    &&& r is None
                    &&& final(self).resident() == old(self).resident()
                    &&& final(self).classes@[k].chunks@ == old(self).classes@[k].chunks@.update(
                        at,
                        Some(DynamicChunk { memory: was.memory, occupied: rest }),
                    )
                }
            }),
    {
        let count: u32 = self.blocks_per_chunk;
        let class: usize = block.class;
        assert(self.classes@[class as int].wf(count));
        let ghost before = *self;
        let gone: Option<Memory> = self.classes[class].reclaim(block.chunk, block.slot, count);
        proof {
            if gone is Some {
                before.lemma_resident_change(*self, class as int, -1);
                before.lemma_resident_covers(class as int, block.chunk as int);
            } else {
                before.lemma_resident_change(*self, class as int, 0);
            }
            assert forall|j: int|
                0 <= j < self.classes@.len() implies (#[trigger] self.classes@[j]).wf(
                self.blocks_per_chunk,
            ) && is_pow2(self.classes@[j].block_size as int) by {
                if j != class {
                    assert(self.classes@[j] == before.classes@[j]);
                }
            }
            assert forall|j: int| 0 <= j < self.classes@.len() - 1 implies (
            #[trigger] self.classes@[j + 1]).block_size == 2 * self.classes@[j].block_size by {
                assert(before.classes@[j + 1].block_size == 2 * before.classes@[j].block_size);
            }
            assert forall|x: DynamicBlock|
                before.holds(x) && !Self::same_block(x, block) implies self.holds(x) by {
                if x.class != class {
                    assert(self.classes@[x.class as int] == before.classes@[x.class as int]);
                }
            }
            assert forall|x: DynamicBlock| self.holds(x) implies before.holds(x) by {
                if x.class != class {
                    assert(self.classes@[x.class as int] == before.classes@[x.class as int]);
                }
            }
        }
        gone
    }

    /// Gives up the allocator, which holds nothing.
    pub fn dispose(self)
        requires
            self.wf(),
            self.idle(),
    {
    }

    /// The raw allocation that `block` lies in.
    pub open spec fn memory_of(self, block: DynamicBlock) -> Memory {
        self.classes@[block.class as int].chunks@[block.chunk as int]->0.memory
    }

    /// A block lies inside its raw allocation.
    pub proof fn lemma_block_inside(self, block: DynamicBlock)
        requires
            self.wf(),
            self.holds(block),
        ensures
            block.range.start <= block.range.end <= self.memory_of(block).size,
            self.memory_of(block).wf(),
            self.memory_of(block).raw == block.raw,
            self.memory_of(block).properties == block.properties,
    {
        let class = self.classes@[block.class as int];
        assert(class.wf(self.blocks_per_chunk));
        assert(class.chunks@[block.chunk as int]->0.wf(class.chunk_bytes(self.blocks_per_chunk)));
        assert(block.slot * class.block_size + class.block_size <= class.block_size
            * self.blocks_per_chunk) by (nonlinear_arith)
            requires
                block.slot < self.blocks_per_chunk,
                class.block_size >= 0,
        ;
        assert(block.slot * class.block_size >= 0) by (nonlinear_arith)
            requires
                class.block_size >= 0,
                block.slot >= 0,
        ;
    }

    /// The raw allocation that `block` lies in.
    pub fn memory(&self, block: &DynamicBlock) -> (m: Memory)
        requires
            self.wf(),
            self.holds(*block),
        ensures
            m == self.memory_of(*block),
    {
        match &self.classes[block.class].chunks[block.chunk] {
            Some(chunk) => chunk.memory.snapshot(),
            None => Memory::new(block.raw, 0, self.properties),
        }
    }

    /// Records another state of the mapping of the raw allocation that
    /// `block` lies in.
    pub fn set_mapping(&mut self, block: &DynamicBlock, host: Option<usize>, mapped: u64)
        requires
            old(self).wf(),
            old(self).holds(*block),
            old(self).memory_of(*block).with_mapping(host, mapped).wf(),
        ensures
            final(self).wf(),
            final(self).same_setup(*old(self)),
            final(self).same_but(*old(self), block.class as int),
            final(self).resident() == old(self).resident(),
            final(self).idle() == old(self).idle(),
            forall|x: DynamicBlock| #![trigger old(self).holds(x)] old(self).holds(x) ==> final(self).holds(x),
            forall|x: DynamicBlock| #![trigger final(self).holds(x)] final(self).holds(x) ==> old(self).holds(x),
            final(self).classes@[block.class as int].chunks@ == old(self).classes@[block.class as int].chunks@.update(
                block.chunk as int,
                Some(
                    DynamicChunk {
                        memory: old(self).memory_of(*block).with_mapping(host, mapped),
                        occupied: old(self).classes@[block.class as int].chunks@[block.chunk as int]->0.occupied,
                    },
                ),
            ),
    {
        let ghost before = *self;
        let class: usize = block.class;
        let at: usize = block.chunk;
        assert(self.classes@[class as int].wf(self.blocks_per_chunk));
        match &mut self.classes[class].chunks[at] {
            Some(chunk) => {
                chunk.memory.set_mapping(host, mapped);
            },
            None => {},
        }
        proof {
            let was = before.classes@[class as int];
            let now = self.classes@[class as int];
            assert(now.chunks@ =~= was.chunks@.update(
                at as int,
                Some(
                    DynamicChunk {
                        memory: before.memory_of(*block).with_mapping(host, mapped),
                        occupied: was.chunks@[at as int]->0.occupied,
                    },
                ),
            ));
            assert(presence(now.chunks@) =~= presence(was.chunks@));
            before.lemma_resident_change(*self, class as int, 0);
            assert forall|j: int|
                0 <= j < self.classes@.len() implies (#[trigger] self.classes@[j]).wf(
                self.blocks_per_chunk,
            ) && is_pow2(self.classes@[j].block_size as int) by {
                if j != class {
                    assert(self.classes@[j] == before.classes@[j]);
                } else {
                    assert forall|c: int| 0 <= c < now.chunks@.len() implies ((
                    #[trigger] now.chunks@[c]) matches Some(chunk) ==> chunk.wf(
                        now.chunk_bytes(self.blocks_per_chunk),
                    ) && none_beyond(chunk.occupied, self.blocks_per_chunk)) by {
                        assert(was.chunks@[c] is Some ==> was.chunks@[c]->0.wf(
                            was.chunk_bytes(self.blocks_per_chunk),
                        ) && none_beyond(was.chunks@[c]->0.occupied, self.blocks_per_chunk));
                    }
                }
            }
            assert forall|j: int| 0 <= j < self.classes@.len() - 1 implies (
            #[trigger] self.classes@[j + 1]).block_size == 2 * self.classes@[j].block_size by {
                assert(before.classes@[j + 1].block_size == 2 * before.classes@[j].block_size);
            }
            assert forall|x: DynamicBlock| before.holds(x) implies self.holds(x) by {
                if x.class != class {
                    assert(self.classes@[x.class as int] == before.classes@[x.class as int]);
                }
            }
            assert forall|x: DynamicBlock| self.holds(x) implies before.holds(x) by {
                if x.class != class {
                    assert(self.classes@[x.class as int] == before.classes@[x.class as int]);
                }
            }
            if before.idle() {
                assert(before.classes@[class as int].vacant());
            }
            if self.idle() {
                assert(self.classes@[class as int].vacant());
            }
        }
    }

    /// Whether `block` is out of this allocator.
    pub fn is_out(&self, block: &DynamicBlock) -> (b: bool)
        requires
            self.wf(),
        ensures
            b == self.holds(*block),
    {
        if block.class >= self.classes.len() {
            return false;
        }
        let class = &self.classes[block.class];
        assert(class.wf(self.blocks_per_chunk));
        if block.chunk >= class.chunks.len() || block.slot >= self.blocks_per_chunk {
            return false;
        }
        proof {
            assert(block.slot * class.block_size + class.block_size <= class.block_size
                * self.blocks_per_chunk) by (nonlinear_arith)
                requires
                    block.slot < self.blocks_per_chunk,
                    class.block_size >= 0,
            ;
            assert(block.slot * class.block_size >= 0) by (nonlinear_arith)
                requires
                    class.block_size >= 0,
                    block.slot >= 0,
            ;
        }
        let start: u64 = (block.slot as u64) * class.block_size;
        match &class.chunks[block.chunk] {
            Some(chunk) => crate::bitmap::test_bit(chunk.occupied, block.slot) && block.raw
                == chunk.memory.raw && block.range.start == start && block.range.end == start
                + class.block_size && block.properties == self.properties,
            None => false,
        }
    }
}

} // verus!
