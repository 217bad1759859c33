//! What holds of the heaps whatever is asked of them.

use vstd::prelude::*;
use crate::arena::{ArenaAllocator, ArenaBlock};
use crate::dedicated::DedicatedBlock;
use crate::memory::Memory;
use crate::memory_type::MemoryType;
use crate::block::{Allocation, BlockFlavor, MemoryBlock, MemoryRequest};
use crate::dynamic::{DynamicAllocator, DynamicBlock};
use crate::error::{MappingError, MemoryError};
use crate::heaps::{allows, kept, shares, Heaps};
use crate::mapping::contains_range;
use crate::memory::MapStep;
use crate::properties::MemoryProperties;
use crate::usage::MemoryUsage;
use crate::util::{disjoint, lemma_sum_equal, lemma_sum_zero, seq_sum};
use std::ops::Range;

verus! {

/// The flag that a usage likes best decides between two memory types
/// that differ in it, whatever their other flags: device-local memory for
/// data and dynamic blocks, coherent memory for uploads, cached memory
/// for downloads.
pub proof fn lemma_first_preference_decides(usage: MemoryUsage, p: MemoryProperties, q: MemoryProperties)
    requires
        match usage {
            MemoryUsage::Data => p.is_device_local() && !q.is_device_local(),
            MemoryUsage::Dynamic => p.is_device_local() && !q.is_device_local(),
            MemoryUsage::Upload => p.is_host_coherent() && !q.is_host_coherent(),
            MemoryUsage::Download => p.is_host_cached() && !q.is_host_cached(),
        },
    ensures
        usage.preference(p) > usage.preference(q),
        0 <= usage.preference(q) < usage.preference(p) <= 7,
{
}

/// No heap is overdrawn: what is taken of a heap never exceeds its size.
pub proof fn lemma_budget_kept(heaps: Heaps, heap: int)
    requires
        heaps.wf(),
        0 <= heap < heaps.heaps@.len(),
    ensures
        0 <= heaps.spec_used(heap) <= heaps.heaps@[heap].size,
        heaps.spec_available(heap) >= 0,
{
}

/// While no block is out, nothing counts as a block that is out.
pub proof fn lemma_idle_holds_nothing(heaps: Heaps, block: MemoryBlock)
    requires
        heaps.wf(),
        heaps.idle(),
    ensures
        !heaps.holds(block),
{
    if heaps.holds(block) {
        let t = heaps.types@[block.memory_index as int];
        assert(t.idle());
        assert(t.wf());
        match block.block {
            BlockFlavor::Dedicated(b) => {},
            BlockFlavor::Arena(b) => {
                let a = t.arena->0;
                let chunk = a.chunks@[b.chunk - a.offset];
                assert(chunk.wf(a.chunk_size));
                assert(chunk.live@.dom().contains(b.range.start as int));
                chunk.live@.dom().lemma_len0_is_empty();
            },
            BlockFlavor::Dynamic(b) => {
                let d = t.dynamic->0;
                assert(d.classes@[b.class as int].vacant());
            },
        }
    }
}

/// An arena with a block counted has a block out.
pub proof fn lemma_arena_busy(arena: ArenaAllocator) -> (block: ArenaBlock)
    requires
        arena.wf(),
        !arena.idle(),
    ensures
        arena.holds(block),
{
    let i = choose|i: int| 0 <= i < arena.chunks@.len() && (#[trigger] arena.chunks@[i]).used_blocks != 0;
    let chunk = arena.chunks@[i];
    assert(chunk.wf(arena.chunk_size));
    let start = chunk.live@.dom().choose();
    assert(chunk.live@.dom().contains(start)) by {
        if chunk.live@.dom().len() == 0 {
        } else {
            vstd::set::axiom_set_choose_len(chunk.live@.dom());
        }
    }
    ArenaBlock {
        raw: chunk.memory.raw,
        chunk: (arena.offset + i) as u64,
        range: Range { start: start as u64, end: (start + chunk.live@[start]) as u64 },
        properties: arena.properties,
    }
}

/// A dynamic allocator with a chunk has a block out.
pub proof fn lemma_dynamic_busy(dynamic: DynamicAllocator) -> (block: DynamicBlock)
    requires
        dynamic.wf(),
        !dynamic.idle(),
    ensures
        dynamic.holds(block),
{
    let k = choose|k: int| 0 <= k < dynamic.classes@.len() && !(#[trigger] dynamic.classes@[k]).vacant();
    let class = dynamic.classes@[k];
    let c = choose|c: int| 0 <= c < class.chunks@.len() && !((#[trigger] class.chunks@[c]) is None);
    let count = dynamic.blocks_per_chunk;
    assert(class.wf(count));
    vstd::std_specs::vec::axiom_spec_len(&class.chunks);
    vstd::std_specs::vec::axiom_spec_len(&dynamic.classes);
    class.lemma_chunk_has_block(c, count);
    let s = choose|s: u32| class.has(c, s, count);
    let size = class.block_size as int;
    assert(s * size + size <= size * count) by (nonlinear_arith)
        requires
            s < count,
            size >= 0,
    ;
    assert(s * size >= 0) by (nonlinear_arith)
        requires
            size >= 0,
            s >= 0,
    ;
    DynamicBlock {
        raw: class.chunks@[c]->0.memory.raw,
        class: k as usize,
        chunk: c as usize,
        slot: s,
        range: Range { start: (s * size) as u64, end: (s * size + size) as u64 },
        properties: dynamic.properties,
    }
}

/// A memory type that counts a block as out has a block out.
pub proof fn lemma_type_busy(t: MemoryType) -> (block: MemoryBlock)
    requires
        t.wf(),
        !t.idle(),
    ensures
        t.holds(block),
{
    if !(forall|k: int| 0 <= k < t.owned@.len() ==> (#[trigger] t.owned@[k]) is None) {
        let k = choose|k: int| 0 <= k < t.owned@.len() && !((#[trigger] t.owned@[k]) is None);
        let pair = t.owned@[k]->0;
        MemoryBlock {
            block: BlockFlavor::Dedicated(
                DedicatedBlock { memory: Memory::new_spec(pair.0, pair.1, t.properties) },
            ),
            memory_index: t.index,
            token: Ghost(k as nat),
        }
    } else if t.arena is Some && !t.arena->0.idle() {
        MemoryBlock {
            block: BlockFlavor::Arena(lemma_arena_busy(t.arena->0)),
            memory_index: t.index,
            token: Ghost(0),
        }
    } else {
        MemoryBlock {
            block: BlockFlavor::Dynamic(lemma_dynamic_busy(t.dynamic->0)),
            memory_index: t.index,
            token: Ghost(0),
        }
    }
}

/// Once every block has come back, no memory type counts a block as out.
pub proof fn lemma_all_back_is_idle(heaps: Heaps)
    requires
        heaps.wf(),
        forall|x: MemoryBlock| !heaps.holds(x),
    ensures
        heaps.idle(),
{
    assert forall|i: int| 0 <= i < heaps.types@.len() implies (#[trigger] heaps.types@[i]).idle() by {
        let t = heaps.types@[i];
        assert(t.wf());
        if !t.idle() {
            let block = lemma_type_busy(t);
            assert(heaps.holds(block));
        }
    }
}

/// Once every block has come back, a heap is charged for nothing but the
/// chunks that the arenas on it keep for the next request, at most one
/// for each arena; on a heap without such a chunk nothing is taken.
pub proof fn lemma_heap_conservation(heaps: Heaps, heap: int)
    requires
        heaps.wf(),
        forall|x: MemoryBlock| !heaps.holds(x),
        0 <= heap < heaps.heaps@.len(),
    ensures
        heaps.idle(),
        heaps.spec_used(heap) == seq_sum(kept(heaps.types@, heap)),
        forall|i: int|
            0 <= i < heaps.types@.len() ==> ((#[trigger] heaps.types@[i]).arena matches Some(a)
                ==> a.chunks@.len() <= 1),
        (forall|i: int|
            0 <= i < heaps.types@.len() && (#[trigger] heaps.types@[i]).heap_index == heap
                ==> heaps.types@[i].arena_resident() == 0) ==> heaps.spec_used(heap) == 0,
{
    lemma_all_back_is_idle(heaps);
    let held = shares(heaps.types@, heap);
    let rest = kept(heaps.types@, heap);
    assert forall|i: int| 0 <= i < held.len() implies held[i] == rest[i] by {
        assert(heaps.types@[i].wf());
        assert(heaps.types@[i].idle());
        heaps.types@[i].lemma_idle();
    }
    lemma_sum_equal(held, rest);
    assert forall|i: int| 0 <= i < heaps.types@.len() implies ((
    #[trigger] heaps.types@[i]).arena matches Some(a) ==> a.chunks@.len() <= 1) by {
        assert(heaps.types@[i].wf());
        assert(heaps.types@[i].idle());
        heaps.types@[i].lemma_idle();
    }
    if forall|i: int|
        0 <= i < heaps.types@.len() && (#[trigger] heaps.types@[i]).heap_index == heap
            ==> heaps.types@[i].arena_resident() == 0 {
        assert forall|i: int| 0 <= i < rest.len() implies rest[i] == 0 by {
            assert(heaps.types@[i].heap_index == heap ==> heaps.types@[i].arena_resident() == 0);
        }
        lemma_sum_zero(rest);
    }
}

/// A block comes from a memory type that the mask allows and that fits
/// the usage, whether it is cut at once or after the device provided
/// memory; it starts on the alignment asked for, and on the atom where
/// its memory is host-visible; and it is at least as large as asked.
pub proof fn lemma_block_as_requested(
    before: Heaps,
    asked: Heaps,
    after: Heaps,
    mask: u32,
    usage: MemoryUsage,
    size: u64,
    align: u64,
    request: MemoryRequest,
    raw: u64,
    block: MemoryBlock,
)
    requires
        before.wf(),
        Heaps::allocates(
            before,
            asked,
            mask,
            usage,
            size,
            align,
            Ok(Allocation::NeedsMemory(request)),
        ),
        Heaps::completes(asked, after, request, Ok(raw), Ok(block)),
    ensures
        block.memory_index < before.types@.len(),
        allows(mask, block.memory_index),
        block.spec_properties() == before.types@[block.memory_index as int].properties,
        usage.spec_fitness(block.spec_properties()) is Some,
        block.spec_range().start % align == 0,
        block.spec_properties().is_host_visible() ==> block.spec_range().start % before.atom == 0,
        block.spec_range().start <= block.spec_range().end,
        block.spec_range().end - block.spec_range().start >= size,
        block.spec_memory() == raw,
        forall|h: int| 0 <= h < after.heaps@.len() ==> after.spec_used(h) <= after.heaps@[h].size,
{
    let i = before.pick(mask, usage, size, align);
    assert(before.chosen(i, mask, usage, size, align));
    assert(before.types@[i].wf());
    assert(asked.types@ =~= before.types@);
    let h = before.types@[i].heap_index as int;
    assert(before.heaps@[h].used <= before.heaps@[h].size);
}

/// A block that is cut at once is as requested in the same ways, and lies
/// inside its raw allocation.
pub proof fn lemma_ready_block_as_requested(
    before: Heaps,
    after: Heaps,
    mask: u32,
    usage: MemoryUsage,
    size: u64,
    align: u64,
    block: MemoryBlock,
)
    requires
        before.wf(),
        after.wf(),
        Heaps::allocates(before, after, mask, usage, size, align, Ok(Allocation::Ready(block))),
    ensures
        block.memory_index < before.types@.len(),
        allows(mask, block.memory_index),
        block.spec_properties() == before.types@[block.memory_index as int].properties,
        usage.spec_fitness(block.spec_properties()) is Some,
        block.spec_range().start % align == 0,
        block.spec_properties().is_host_visible() ==> block.spec_range().start % before.atom == 0,
        block.spec_range().start <= block.spec_range().end,
        block.spec_range().end - block.spec_range().start >= size,
        block.spec_range().end <= after.memory_of(block).size,
        after.heaps@ == before.heaps@,
{
    let i = before.pick(mask, usage, size, align);
    assert(before.chosen(i, mask, usage, size, align));
    assert(before.types@[i].wf());
    assert(after.cut(before, block));
    after.lemma_block_inside(block);
}

/// Two blocks that are out and lie in one raw allocation share no byte.
pub proof fn lemma_blocks_apart(heaps: Heaps, a: MemoryBlock, b: MemoryBlock)
    requires
        heaps.wf(),
        heaps.holds(a),
        heaps.holds(b),
        !a.same_block(b),
        a.shares_allocation(b),
    ensures
        disjoint(
            a.spec_range().start as int,
            a.spec_range().end as int,
            b.spec_range().start as int,
            b.spec_range().end as int,
        ),
{
    let t = heaps.types@[a.memory_index as int];
    assert(t.wf());
    match (a.block, b.block) {
        (BlockFlavor::Arena(x), BlockFlavor::Arena(y)) => {
            let arena = t.arena->0;
            let chunk = arena.chunks@[x.chunk - arena.offset];
            assert(chunk.wf(arena.chunk_size));
            assert(chunk.live@.dom().contains(x.range.start as int));
            assert(chunk.live@.dom().contains(y.range.start as int));
        },
        (BlockFlavor::Dynamic(x), BlockFlavor::Dynamic(y)) => {
            let d = t.dynamic->0;
            let block_size = d.classes@[x.class as int].block_size as int;
            let s = x.slot as int;
            let u = y.slot as int;
            assert(s < u ==> s * block_size + block_size <= u * block_size) by (nonlinear_arith)
                requires
                    block_size >= 0,
            ;
            assert(u < s ==> u * block_size + block_size <= s * block_size) by (nonlinear_arith)
                requires
                    block_size >= 0,
            ;
        },
        _ => {},
    }
}

/// A block whose memory is not host-visible cannot be mapped, whatever
/// the range, and nothing else is refused as `HostInvisible`. On
/// host-visible memory a range is refused as `OutsideBlock` exactly where
/// it is not inside the block. A refusal leaves the record of the raw
/// allocation as it was.
pub proof fn lemma_map_refusals(
    before: Heaps,
    after: Heaps,
    was: MemoryBlock,
    block: MemoryBlock,
    range: Range<u64>,
    r: Result<MapStep, MappingError>,
)
    requires
        before.wf(),
        before.holds(was),
        Heaps::maps(before, after, was, block, range, r),
    ensures
        !was.spec_properties().is_host_visible() <==> r == Err::<MapStep, MappingError>(
            MappingError::HostInvisible,
        ),
        was.spec_properties().is_host_visible() && !contains_range(was.spec_range(), range) <==> r
            == Err::<MapStep, MappingError>(MappingError::OutsideBlock),
        r is Err ==> after.memory_of(block) == before.memory_of(was),
        r matches Ok(MapStep::MapMemory { raw, size }) ==> raw == was.spec_memory() && size
            == before.memory_of(was).size && after.memory_of(block) == before.memory_of(was),
{
    before.lemma_block_inside(was);
}

/// A request that fails leaves the budgets and the blocks that are out
/// as they were.
pub proof fn lemma_failure_changes_nothing(
    before: Heaps,
    after: Heaps,
    mask: u32,
    usage: MemoryUsage,
    size: u64,
    align: u64,
    e: MemoryError,
)
    requires
        before.wf(),
        Heaps::allocates(before, after, mask, usage, size, align, Err(e)),
    ensures
        after.unchanged(before),
        e == MemoryError::HeapsExhausted || e == MemoryError::NoSuitableMemory(mask, usage),
{
    if !(forall|j: int| !before.suitable(j, mask, usage)) && !(forall|j: int|
        !(before.suitable(j, mask, usage) && before.admitted(j, size, align))) {
        let i = before.pick(mask, usage, size, align);
        assert(after.types@ =~= before.types@);
    }
}

} // verus!
