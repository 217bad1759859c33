//! The handles of the raw allocations that the heaps hold, and why no
//! two blocks that are out overlap.

use vstd::prelude::*;
use crate::block::{Allocation, BlockFlavor, MemoryBlock, MemoryRequest, Route};
use crate::dedicated::Release;
use crate::error::MemoryError;
use crate::heaps::Heaps;
use crate::laws::lemma_blocks_apart;
use crate::memory_type::MemoryType;
use crate::usage::MemoryUsage;
use crate::util::disjoint;

verus! {

/// Where a raw allocation is kept: by a dedicated block of a memory
/// type, numbered by `first`; in a chunk of its arena, numbered by
/// `first`; or in chunk `second` of class `first` of its dynamic
/// allocator.
pub struct Place {
    pub memory_index: int,
    pub route: Route,
    pub first: int,
    pub second: int,
}

impl MemoryType {
    /// The handle of the raw allocation kept at a place of this memory
    /// type, if one is kept there.
    pub open spec fn handle_at(self, route: Route, first: int, second: int) -> Option<u64> {
        match route {
            Route::Dedicated => if second == 0 && 0 <= first < self.owned@.len()
                && self.owned@[first] is Some {
                Some((self.owned@[first]->0).0)
            } else {
                None
            },
            Route::Arena => if second == 0 && (self.arena matches Some(a) && a.offset <= first
                < a.offset + a.chunks@.len()) {
                Some(self.arena->0.chunks@[first - self.arena->0.offset].memory.raw)
            } else {
                None
            },
            Route::Dynamic => if self.dynamic matches Some(d) && 0 <= first < d.classes@.len() && 0
                <= second < d.classes@[first].chunks@.len()
                && d.classes@[first].chunks@[second] is Some {
                Some(self.dynamic->0.classes@[first].chunks@[second]->0.memory.raw)
            } else {
                None
            },
        }
    }
}

impl MemoryBlock {
    /// The place of the raw allocation that the block lies in.
    pub open spec fn place(self) -> Place {
        match self.block {
            BlockFlavor::Dedicated(_) => Place {
                memory_index: self.memory_index as int,
                route: Route::Dedicated,
                first: self.token@ as int,
                second: 0,
            },
            BlockFlavor::Arena(b) => Place {
                memory_index: self.memory_index as int,
                route: Route::Arena,
                first: b.chunk as int,
                second: 0,
            },
            BlockFlavor::Dynamic(b) => Place {
                memory_index: self.memory_index as int,
                route: Route::Dynamic,
                first: b.class as int,
                second: b.chunk as int,
            },
        }
    }
}

impl Heaps {
    /// The handle of the raw allocation kept at `place`, if one is kept
    /// there.
    pub open spec fn handle_at(self, place: Place) -> Option<u64> {
        if 0 <= place.memory_index < self.types@.len() {
            self.types@[place.memory_index].handle_at(place.route, place.first, place.second)
        } else {
            None
        }
    }

    /// Whether a raw allocation with the handle `raw` is held.
    pub open spec fn knows(self, raw: u64) -> bool {
        exists|place: Place| self.handle_at(place) == Some(raw)
    }

    /// Whether the raw allocations that are held have handles of their
    /// own, as a device gives them.
    pub open spec fn handles_distinct(self) -> bool {
        forall|p: Place, q: Place|
            #![trigger self.handle_at(p), self.handle_at(q)]
            p != q && self.handle_at(p) is Some && self.handle_at(q) is Some ==> self.handle_at(p)
                != self.handle_at(q)
    }
}

/// A block that is out has the handle of the raw allocation at its
/// place.
pub proof fn lemma_handle_of_block(heaps: Heaps, block: MemoryBlock)
    requires
        heaps.wf(),
        heaps.holds(block),
    ensures
        heaps.handle_at(block.place()) == Some(block.spec_memory()),
{
    assert(heaps.types@[block.memory_index as int].wf());
}

/// No two blocks that are out overlap: they lie in raw allocations with
/// different handles, or they share no byte.
pub proof fn lemma_live_blocks_never_overlap(heaps: Heaps, a: MemoryBlock, b: MemoryBlock)
    requires
        heaps.wf(),
        heaps.handles_distinct(),
        heaps.holds(a),
        heaps.holds(b),
        !a.same_block(b),
    ensures
        a.spec_memory() != b.spec_memory() || disjoint(
            a.spec_range().start as int,
            a.spec_range().end as int,
            b.spec_range().start as int,
            b.spec_range().end as int,
        ),
{
    lemma_handle_of_block(heaps, a);
    lemma_handle_of_block(heaps, b);
    if a.place() == b.place() {
        assert(a.shares_allocation(b));
        lemma_blocks_apart(heaps, a, b);
    }
}

/// Heaps that never had a raw allocation, as new ones are, hold no
/// handle.
pub proof fn lemma_empty_heaps_hold_none(heaps: Heaps)
    requires
        heaps.wf(),
        forall|i: int|
            0 <= i < heaps.types@.len() ==> (#[trigger] heaps.types@[i]).owned@.len() == 0 && (
            heaps.types@[i].arena matches Some(a) ==> a.chunks@.len() == 0) && (
            heaps.types@[i].dynamic matches Some(d) ==> d.idle()),
    ensures
        heaps.handles_distinct(),
        forall|raw: u64| !heaps.knows(raw),
{
    assert forall|p: Place| heaps.handle_at(p) is None by {
        if 0 <= p.memory_index < heaps.types@.len() {
            let t = heaps.types@[p.memory_index];
            if p.route is Dynamic && t.dynamic is Some && 0 <= p.first
                < t.dynamic->0.classes@.len() {
                assert(t.dynamic->0.classes@[p.first].vacant());
            }
        }
    }
}

/// Serving a request without the device changes no handle.
pub proof fn lemma_allocation_keeps_handles(
    before: Heaps,
    after: Heaps,
    index: u32,
    usage: MemoryUsage,
    size: u64,
    align: u64,
    r: Result<Allocation, MemoryError>,
    place: Place,
)
    requires
        before.wf(),
        index < before.types@.len(),
        Heaps::allocates_from(before, after, index, usage, size, align, r),
    ensures
        after.handle_at(place) == before.handle_at(place),
{
    let t = before.types@[index as int];
    assert(t.wf());
    if before.spec_available(t.heap_index as int) >= size && place.memory_index == index {
        let u = after.types@[index as int];
        match r {
            Ok(Allocation::Ready(block)) => {
                match t.spec_route(usage, size, align) {
                    Route::Dynamic => {
                        let k = t.spec_class(size, align);
                        if place.route is Dynamic && place.first != k && 0 <= place.first
                            < t.dynamic->0.classes@.len() {
                            assert(u.dynamic->0.classes@[place.first]
                                == t.dynamic->0.classes@[place.first]);
                        }
                    },
                    _ => {},
                }
            },
            _ => {},
        }
    }
}

/// Taking in a raw allocation adds its handle at the place of the new
/// block, where none was, and changes no other.
pub proof fn lemma_completion_adds_handle(
    before: Heaps,
    after: Heaps,
    request: MemoryRequest,
    raw: u64,
    block: MemoryBlock,
    place: Place,
)
    requires
        before.wf(),
        before.expects(request),
        Heaps::completes(before, after, request, Ok(raw), Ok(block)),
    ensures
        before.handle_at(block.place()) is None,
        after.handle_at(block.place()) == Some(raw),
        place != block.place() ==> after.handle_at(place) == before.handle_at(place),
{
    let i = request.memory_index as int;
    let t = before.types@[i];
    let u = after.types@[i];
    assert(t.wf());
    match request.route {
        Route::Dynamic => {
            let k = request.class as int;
            if place.route is Dynamic && place.first != k && 0 <= place.first
                < t.dynamic->0.classes@.len() {
                assert(u.dynamic->0.classes@[place.first] == t.dynamic->0.classes@[place.first]);
            }
        },
        _ => {},
    }
}

/// Taking a block back adds no handle and changes none.
pub proof fn lemma_free_keeps_handles(
    before: Heaps,
    after: Heaps,
    block: MemoryBlock,
    released: Seq<Release>,
    place: Place,
)
    requires
        before.wf(),
        before.holds(block),
        Heaps::frees(before, after, block, released),
    ensures
        after.handle_at(place) is Some ==> after.handle_at(place) == before.handle_at(place),
{
    let i = block.memory_index as int;
    let t = before.types@[i];
    let u = after.types@[i];
    assert(t.wf());
    match block.block {
        BlockFlavor::Dynamic(b) => {
            let k = b.class as int;
            if place.route is Dynamic && place.first != k && 0 <= place.first
                < t.dynamic->0.classes@.len() {
                assert(u.dynamic->0.classes@[place.first] == t.dynamic->0.classes@[place.first]);
            }
        },
        _ => {},
    }
}

/// A change of the mapping of a block's raw allocation changes no handle.
pub proof fn lemma_handles_stay_distinct_remapping(
    before: Heaps,
    after: Heaps,
    block: MemoryBlock,
    was: MemoryBlock,
)
    requires
        before.wf(),
        before.handles_distinct(),
        before.holds(was),
        after.remapped(before, block, was),
    ensures
        after.handles_distinct(),
        forall|raw: u64| after.knows(raw) == before.knows(raw),
{
    let i = was.memory_index as int;
    assert forall|p: Place| #[trigger] after.handle_at(p) == before.handle_at(p) by {
        if p.memory_index == i {
            assert(after.types@[i].handle_at(p.route, p.first, p.second)
                == before.types@[i].handle_at(p.route, p.first, p.second));
        }
    }
    assert forall|raw: u64| after.knows(raw) == before.knows(raw) by {
        if after.knows(raw) {
            let p = choose|p: Place| after.handle_at(p) == Some(raw);
            assert(before.handle_at(p) == Some(raw));
        }
        if before.knows(raw) {
            let p = choose|p: Place| before.handle_at(p) == Some(raw);
            assert(after.handle_at(p) == Some(raw));
        }
    }
}

/// The handles held stay distinct through a request that is served
/// without the device.
pub proof fn lemma_handles_stay_distinct_allocating(
    before: Heaps,
    after: Heaps,
    index: u32,
    usage: MemoryUsage,
    size: u64,
    align: u64,
    r: Result<Allocation, MemoryError>,
)
    requires
        before.wf(),
        before.handles_distinct(),
        index < before.types@.len(),
        Heaps::allocates_from(before, after, index, usage, size, align, r),
    ensures
        after.handles_distinct(),
        forall|raw: u64| after.knows(raw) == before.knows(raw),
{
    assert forall|p: Place| #[trigger] after.handle_at(p) == before.handle_at(p) by {
        lemma_allocation_keeps_handles(before, after, index, usage, size, align, r, p);
    }
    assert forall|raw: u64| after.knows(raw) == before.knows(raw) by {
        if after.knows(raw) {
            let p = choose|p: Place| after.handle_at(p) == Some(raw);
            assert(before.handle_at(p) == Some(raw));
        }
        if before.knows(raw) {
            let p = choose|p: Place| before.handle_at(p) == Some(raw);
            assert(after.handle_at(p) == Some(raw));
        }
    }
}

/// The handles held stay distinct through a request that is completed
/// with a raw allocation whose handle no raw allocation held has.
pub proof fn lemma_handles_stay_distinct_completing(
    before: Heaps,
    after: Heaps,
    request: MemoryRequest,
    raw: u64,
    block: MemoryBlock,
)
    requires
        before.wf(),
        before.handles_distinct(),
        before.expects(request),
        !before.knows(raw),
        Heaps::completes(before, after, request, Ok(raw), Ok(block)),
    ensures
        after.handles_distinct(),
        forall|other: u64| after.knows(other) == (before.knows(other) || other == raw),
{
    assert forall|p: Place|
        #[trigger] after.handle_at(p) == (if p == block.place() {
            Some(raw)
        } else {
            before.handle_at(p)
        }) by {
        lemma_completion_adds_handle(before, after, request, raw, block, p);
    }
    assert forall|p: Place, q: Place|
        #![trigger after.handle_at(p), after.handle_at(q)]
        p != q && after.handle_at(p) is Some && after.handle_at(q) is Some implies after.handle_at(
        p,
    ) != after.handle_at(q) by {
        if p != block.place() && q != block.place() {
            assert(before.handle_at(p) != before.handle_at(q));
        }
    }
    assert forall|other: u64| after.knows(other) == (before.knows(other) || other == raw) by {
        if after.knows(other) {
            let p = choose|p: Place| after.handle_at(p) == Some(other);
            if p != block.place() {
                assert(before.handle_at(p) == Some(other));
            }
        }
        if before.knows(other) {
            let p = choose|p: Place| before.handle_at(p) == Some(other);
            assert(after.handle_at(p) == Some(other));
        }
        if other == raw {
            assert(after.handle_at(block.place()) == Some(raw));
        }
    }
}

/// The handles held stay distinct through a block taken back, and none
/// is added.
pub proof fn lemma_handles_stay_distinct_freeing(
    before: Heaps,
    after: Heaps,
    block: MemoryBlock,
    released: Seq<Release>,
)
    requires
        before.wf(),
        before.handles_distinct(),
        before.holds(block),
        Heaps::frees(before, after, block, released),
    ensures
        after.handles_distinct(),
        forall|raw: u64| after.knows(raw) ==> before.knows(raw),
{
    assert forall|p: Place| after.handle_at(p) is Some implies #[trigger] after.handle_at(p)
        == before.handle_at(p) by {
        lemma_free_keeps_handles(before, after, block, released, p);
    }
    assert forall|p: Place, q: Place|
        #![trigger after.handle_at(p), after.handle_at(q)]
        p != q && after.handle_at(p) is Some && after.handle_at(q) is Some implies after.handle_at(
        p,
    ) != after.handle_at(q) by {
        assert(before.handle_at(p) != before.handle_at(q));
    }
    assert forall|raw: u64| after.knows(raw) implies before.knows(raw) by {
        let p = choose|p: Place| after.handle_at(p) == Some(raw);
        assert(before.handle_at(p) == Some(raw));
    }
}

/// Two values that stand for one block that is out of a chunk are the
/// same block.
pub proof fn lemma_one_block(heaps: Heaps, a: MemoryBlock, b: MemoryBlock)
    requires
        heaps.wf(),
        heaps.holds(a),
        heaps.holds(b),
        a.same_block(b),
        !(a.block is Dedicated),
    ensures
        a.block == b.block,
{
    assert(heaps.types@[a.memory_index as int].wf());
}

/// A block that is cut from resident memory shares no byte with a block
/// that is out, and the blocks that are out stay out.
pub proof fn lemma_ready_block_overlaps_none(
    before: Heaps,
    after: Heaps,
    index: u32,
    usage: MemoryUsage,
    size: u64,
    align: u64,
    block: MemoryBlock,
    other: MemoryBlock,
)
    requires
        before.wf(),
        after.wf(),
        before.handles_distinct(),
        index < before.types@.len(),
        Heaps::allocates_from(
            before,
            after,
            index,
            usage,
            size,
            align,
            Ok(Allocation::Ready(block)),
        ),
        before.holds(other),
    ensures
        after.holds(other),
        after.holds(block),
        block.spec_memory() != other.spec_memory() || disjoint(
            block.spec_range().start as int,
            block.spec_range().end as int,
            other.spec_range().start as int,
            other.spec_range().end as int,
        ),
{
    lemma_handles_stay_distinct_allocating(
        before,
        after,
        index,
        usage,
        size,
        align,
        Ok(Allocation::Ready(block)),
    );
    assert(before.types@[index as int].wf());
    assert(after.cut(before, block));
    if block.same_block(other) {
        lemma_one_block(after, block, other);
    }
    lemma_live_blocks_never_overlap(after, block, other);
}

/// A block that is cut from a raw allocation whose handle is new shares
/// no byte with a block that is out, and the blocks that are out stay
/// out.
pub proof fn lemma_completed_block_overlaps_none(
    before: Heaps,
    after: Heaps,
    request: MemoryRequest,
    raw: u64,
    block: MemoryBlock,
    other: MemoryBlock,
)
    requires
        before.wf(),
        after.wf(),
        before.handles_distinct(),
        before.expects(request),
        !before.knows(raw),
        Heaps::completes(before, after, request, Ok(raw), Ok(block)),
        before.holds(other),
    ensures
        after.holds(other),
        after.holds(block),
        block.spec_memory() != other.spec_memory() || disjoint(
            block.spec_range().start as int,
            block.spec_range().end as int,
            other.spec_range().start as int,
            other.spec_range().end as int,
        ),
{
    lemma_handles_stay_distinct_completing(before, after, request, raw, block);
    assert(before.types@[request.memory_index as int].wf());
    assert(after.cut(before, block));
    if block.same_block(other) && !(block.block is Dedicated) {
        lemma_one_block(after, block, other);
    }
    lemma_live_blocks_never_overlap(after, block, other);
}

} // verus!
