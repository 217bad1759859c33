//! The heaps of a device and the memory types that draw on them: the
//! entry point for allocating and freeing blocks.

use vstd::prelude::*;
use vstd::arithmetic::power2::is_pow2;
use crate::block::{Allocation, MemoryBlock, MemoryRequest};
use crate::dedicated::Release;
use std::ops::Range;
use crate::error::{DeviceError, MappingError, MemoryError};
use crate::mapping::{contains_range, MappedRange};
use crate::memory::{MapStep, Memory};
use crate::memory_type::{HeapsConfig, MemoryType};
use crate::properties::MemoryProperties;
use crate::shortlist::{entries, shortlist_get, shortlist_len, shortlist_new, shortlist_push};
use crate::usage::MemoryUsage;
use crate::util::{lemma_sum_bounds, lemma_sum_update, lemma_sum_zero, seq_sum};

verus! {

/// The budget of one heap of the device.
#[derive(Debug)]
pub struct MemoryHeap {
    /// Bytes that the heap has.
    pub size: u64,
    /// Bytes that are taken.
    pub used: u64,
}

impl MemoryHeap {
    pub open spec fn wf(self) -> bool {
        self.used <= self.size
    }

    pub open spec fn spec_available(self) -> int {
        self.size - self.used
    }

    /// A heap of `size` bytes, none of them taken.
    pub fn new(size: u64) -> (h: Self)
        ensures
            h == (MemoryHeap { size, used: 0 }),
            h.wf(),
    {
        MemoryHeap { size, used: 0 }
    }

    /// Bytes that are left.
    pub fn available(&self) -> (bytes: u64)
        requires
            self.wf(),
        ensures
            bytes == self.spec_available(),
    {
        self.size - self.used
    }
}

/// What each memory type holds on heap `heap`.
pub open spec fn shares(types: Seq<MemoryType>, heap: int) -> Seq<int> {
    Seq::new(
        types.len(),
        |i: int|
            if types[i].heap_index == heap {
                types[i].resident()
            } else {
                0
            },
    )
}

/// What the arena of each memory type on heap `heap` keeps.
pub open spec fn kept(types: Seq<MemoryType>, heap: int) -> Seq<int> {
    Seq::new(
        types.len(),
        |i: int|
            if types[i].heap_index == heap {
                types[i].arena_resident()
            } else {
                0
            },
    )
}

/// What the device has to free when the memory types from `from` on go.
pub open spec fn retained_from(types: Seq<MemoryType>, from: int) -> Seq<Release>
    decreases types.len() - from,
{
    if from < 0 || from >= types.len() {
        Seq::empty()
    } else {
        types[from].retained() + retained_from(types, from + 1)
    }
}

/// Whether `mask` allows the memory type `index`.
pub open spec fn allows(mask: u32, index: u32) -> bool {
    (1u32 << index) & mask != 0
}

/// The memory types and heaps of one device.
pub struct Heaps {
    /// The memory types, by index.
    pub types: Vec<MemoryType>,
    /// The heaps, by index.
    pub heaps: Vec<MemoryHeap>,
    /// The device's non-coherent atom size.
    pub atom: u64,
}

impl Heaps {
    /// Bytes that the memory types hold on heap `heap`.
    pub open spec fn held(self, heap: int) -> int {
        seq_sum(shares(self.types@, heap))
    }

    /// Each heap's budget counts what the memory types on it hold, and
    /// none is overdrawn.
    pub open spec fn wf(self) -> bool {
        &&& self.types@.len() <= 32
        &&& is_pow2(self.atom as int)
        &&& forall|i: int|
            0 <= i < self.types@.len() ==> {
                &&& (#[trigger] self.types@[i]).wf()
                &&& self.types@[i].index == i
                &&& self.types@[i].heap_index < self.heaps@.len()
                &&& self.types@[i].atom == self.atom
            }
        &&& forall|h: int|
            0 <= h < self.heaps@.len() ==> (#[trigger] self.heaps@[h]).used <= self.heaps@[h].size
                && self.heaps@[h].used == self.held(h)
    }

    /// Bytes taken of heap `heap`.
    pub open spec fn spec_used(self, heap: int) -> int {
        self.heaps@[heap].used as int
    }

    /// Bytes left of heap `heap`.
    pub open spec fn spec_available(self, heap: int) -> int {
        self.heaps@[heap].size - self.heaps@[heap].used
    }

    /// Whether `block` is out of these heaps.
    pub open spec fn holds(self, block: MemoryBlock) -> bool {
        block.memory_index < self.types@.len() && self.types@[block.memory_index as int].holds(
            block,
        )
    }

    /// No block is out.
    pub open spec fn idle(self) -> bool {
        forall|i: int| 0 <= i < self.types@.len() ==> (#[trigger] self.types@[i]).idle()
    }

    /// Nothing differs between the two.
    pub open spec fn unchanged(self, before: Heaps) -> bool {
        self.types@ == before.types@ && self.heaps@ == before.heaps@ && self.atom == before.atom
    }

    /// What handing out `block` does to the blocks that are out: it joins
    /// them, and the others stay.
    pub open spec fn cut(self, before: Heaps, block: MemoryBlock) -> bool {
        &&& self.holds(block)
        &&& !before.holds(block)
        &&& forall|x: MemoryBlock| #![trigger before.holds(x)] before.holds(x) ==> self.holds(x)
        &&& forall|x: MemoryBlock|
            #![trigger self.holds(x)]
            self.holds(x) ==> before.holds(x) || x.same_block(block)
    }

    /// What taking `block` back does to the blocks that are out: it leaves
    /// them, and the others stay.
    pub open spec fn returned(self, before: Heaps, block: MemoryBlock) -> bool {
        &&& !self.holds(block)
        &&& forall|x: MemoryBlock|
            #![trigger before.holds(x)]
            before.holds(x) && !x.same_block(block) ==> self.holds(x)
        &&& forall|x: MemoryBlock| #![trigger self.holds(x)] self.holds(x) ==> before.holds(x)
    }

    /// Whether memory type `i` is allowed by `mask` and fit for `usage`.
    pub open spec fn suitable(self, i: int, mask: u32, usage: MemoryUsage) -> bool {
        &&& 0 <= i < self.types@.len()
        &&& allows(mask, i as u32)
        &&& usage.spec_fitness(self.types@[i].properties) is Some
    }

    /// The fitness of memory type `i` for `usage`.
    pub open spec fn fit(self, i: int, usage: MemoryUsage) -> int {
        usage.spec_fitness(self.types@[i].properties)->0 as int
    }

    /// Whether the heap of memory type `i` has room to spare for the
    /// request.
    pub open spec fn admitted(self, i: int, size: u64, align: u64) -> bool {
        self.spec_available(self.types@[i].heap_index as int) > size + align
    }

    /// Whether memory type `i` is the one to serve the request: among the
    /// suitable types whose heap has room it has the highest fitness, and
    /// of those with that fitness the lowest index.
    pub open spec fn chosen(self, i: int, mask: u32, usage: MemoryUsage, size: u64, align: u64) -> bool {
        &&& self.suitable(i, mask, usage)
        &&& self.admitted(i, size, align)
        &&& forall|j: int|
            #![trigger self.suitable(j, mask, usage)]
            self.suitable(j, mask, usage) && self.admitted(j, size, align) ==> self.fit(j, usage)
                < self.fit(i, usage) || (self.fit(j, usage) == self.fit(i, usage) && i <= j)
    }

    /// The memory type that serves the request, where there is one.
    pub open spec fn pick(self, mask: u32, usage: MemoryUsage, size: u64, align: u64) -> int {
        choose|i: int| self.chosen(i, mask, usage, size, align)
    }

    /// No two memory types are the chosen one.
    pub proof fn lemma_chosen_unique(
        self,
        i: int,
        j: int,
        mask: u32,
        usage: MemoryUsage,
        size: u64,
        align: u64,
    )
        requires
            self.chosen(i, mask, usage, size, align),
            self.chosen(j, mask, usage, size, align),
        ensures
            i == j,
    {
    }

    /// What `allocate_from` does, from the state before to the state
    /// after and the result: where the heap of memory type `index` has
    /// fewer than `size` bytes left the request fails with
    /// `HeapsExhausted`, else the memory type takes it. The memory type
    /// cuts the block from memory it holds, or asks for the raw memory it
    /// needs; where the heap does not have that much left, it too
    /// refuses with `HeapsExhausted` and changes nothing. No budget
    /// changes here: a block that comes at once is cut from memory that
    /// was counted when it came.
    pub open spec fn allocates_from(
        before: Heaps,
        after: Heaps,
        index: u32,
        usage: MemoryUsage,
        size: u64,
        align: u64,
        r: Result<Allocation, MemoryError>,
    ) -> bool {
        let t = before.types@[index as int];
        let available = before.spec_available(t.heap_index as int);
        if available < size {
            r == Err::<Allocation, MemoryError>(MemoryError::HeapsExhausted) && after.unchanged(
                before,
            )
        } else {
            &&& after.heaps@ == before.heaps@
            &&& after.atom == before.atom
            &&& after.types@ == before.types@.update(index as int, after.types@[index as int])
            &&& after.types@[index as int].same_setup(t)
            &&& MemoryType::allocates(
                t,
                after.types@[index as int],
                usage,
                size,
                align,
                available as u64,
                r,
            )
            &&& r matches Ok(Allocation::Ready(block)) ==> after.cut(before, block)
            &&& r matches Ok(Allocation::NeedsMemory(request)) ==> before.expects(request)
        }
    }

    /// What `allocate` does: without a suitable memory type the request
    /// fails with `NoSuitableMemory`; with suitable types but none whose
    /// heap has room it fails with `HeapsExhausted`; else the chosen memory
    /// type takes it as in `allocate_from`, and may still refuse with
    /// `HeapsExhausted`, changing nothing, where the raw memory it needs
    /// is more than its heap has left.
    pub open spec fn allocates(
        before: Heaps,
        after: Heaps,
        mask: u32,
        usage: MemoryUsage,
        size: u64,
        align: u64,
        r: Result<Allocation, MemoryError>,
    ) -> bool {
        if forall|j: int| !before.suitable(j, mask, usage) {
            r == Err::<Allocation, MemoryError>(MemoryError::NoSuitableMemory(mask, usage))
                && after.unchanged(before)
        } else if forall|j: int|
            !(before.suitable(j, mask, usage) && before.admitted(j, size, align)) {
            r == Err::<Allocation, MemoryError>(MemoryError::HeapsExhausted) && after.unchanged(
                before,
            )
        } else {
            let i = before.pick(mask, usage, size, align);
            &&& before.chosen(i, mask, usage, size, align)
            &&& Self::allocates_from(before, after, i as u32, usage, size, align, r)
        }
    }

    /// Whether `request` is one that these heaps can complete: its memory
    /// type can, and the heap has the bytes it asks for.
    pub open spec fn expects(self, request: MemoryRequest) -> bool {
        &&& request.memory_index < self.types@.len()
        &&& self.types@[request.memory_index as int].expects(request)
        &&& request.bytes <= self.spec_available(
            self.types@[request.memory_index as int].heap_index as int,
        )
    }

    /// The heaps hold at least what each memory type holds.
    pub proof fn lemma_share(self, i: int)
        requires
            self.wf(),
            0 <= i < self.types@.len(),
        ensures
            0 <= self.types@[i].resident() <= self.spec_used(self.types@[i].heap_index as int),
    {
        let h = self.types@[i].heap_index as int;
        assert(self.types@[i].wf());
        assert(self.heaps@[h].used == self.held(h));
        lemma_sum_bounds(shares(self.types@, h), i);
    }

    /// Replacing memory type `i` by one on the same heap that holds
    /// `delta` bytes more changes what is held on that heap by `delta`
    /// and nothing on the others.
    pub proof fn lemma_held_update(types: Seq<MemoryType>, i: int, t: MemoryType, delta: int, h: int)
        requires
            0 <= i < types.len(),
            t.heap_index == types[i].heap_index,
            t.resident() == types[i].resident() + delta,
        ensures
            seq_sum(shares(types.update(i, t), h)) == seq_sum(shares(types, h)) + if h
                == t.heap_index {
                delta
            } else {
                0
            },
    {
        let before = shares(types, h);
        let after = shares(types.update(i, t), h);
        assert(after =~= before.update(i, after[i]));
        lemma_sum_update(before, i, after[i]);
    }

    /// What `complete` does: where the device failed, its error is passed
    /// on and nothing changes; else the memory type of the request takes
    /// the raw allocation in, and the heap counts its bytes.
    pub open spec fn completes(
        before: Heaps,
        after: Heaps,
        request: MemoryRequest,
        outcome: Result<u64, DeviceError>,
        r: Result<MemoryBlock, MemoryError>,
    ) -> bool {
        let i = request.memory_index as int;
        let t = before.types@[i];
        let h = t.heap_index as int;
        match outcome {
            Err(e) => r == Err::<MemoryBlock, MemoryError>(MemoryError::spec_from_device(e))
                && after.unchanged(before),
            Ok(raw) => {
                &&& r matches Ok(block) && {
                    &&& MemoryType::completes(t, after.types@[i], request, raw, block)
                    &&& after.cut(before, block)
                }
                &&& after.atom == before.atom
                &&& after.types@ == before.types@.update(i, after.types@[i])
                &&& after.types@[i].same_setup(t)
                &&& after.heaps@ == before.heaps@.update(
                    h,
                    MemoryHeap {
                        size: before.heaps@[h].size,
                        used: (before.heaps@[h].used + request.bytes) as u64,
                    },
                )
            },
        }
    }

    /// What `free` does: the memory type of the block takes it back, and
    /// the heap gives up the bytes that go to the device with it.
    pub open spec fn frees(before: Heaps, after: Heaps, block: MemoryBlock, released: Seq<Release>) -> bool {
        let i = block.memory_index as int;
        let t = before.types@[i];
        let h = t.heap_index as int;
        let freed = before.heaps@[h].used - after.heaps@[h].used;
        &&& 0 <= freed
        &&& MemoryType::frees(t, after.types@[i], block, released, freed as u64)
        &&& after.returned(before, block)
        &&& after.atom == before.atom
        &&& after.types@ == before.types@.update(i, after.types@[i])
        &&& after.types@[i].same_setup(t)
        &&& after.heaps@ == before.heaps@.update(
            h,
            MemoryHeap { size: before.heaps@[h].size, used: after.heaps@[h].used },
        )
    }

    proof fn lemma_replaced(self, before: Heaps, i: int, delta: int)
        requires
            before.wf(),
            0 <= i < before.types@.len(),
            self.atom == before.atom,
            self.types@ == before.types@.update(i, self.types@[i]),
            self.types@[i].wf(),
            self.types@[i].same_setup(before.types@[i]),
            self.types@[i].resident() == before.types@[i].resident() + delta,
            self.heaps@.len() == before.heaps@.len(),
            forall|h: int|
                0 <= h < self.heaps@.len() ==> (#[trigger] self.heaps@[h]).size
                    == before.heaps@[h].size && self.heaps@[h].used == before.heaps@[h].used + if h
                    == before.types@[i].heap_index {
                    delta
                } else {
                    0
                },
            before.heaps@[before.types@[i].heap_index as int].used + delta
                <= before.heaps@[before.types@[i].heap_index as int].size,
        ensures
            self.wf(),
    {
        assert forall|j: int| 0 <= j < self.types@.len() implies {
            &&& (#[trigger] self.types@[j]).wf()
            &&& self.types@[j].index == j
            &&& self.types@[j].heap_index < self.heaps@.len()
            &&& self.types@[j].atom == self.atom
        } by {
            assert(before.types@[j].wf());
        }
        assert forall|h: int| 0 <= h < self.heaps@.len() implies (#[trigger] self.heaps@[h]).used
            <= self.heaps@[h].size && self.heaps@[h].used == self.held(h) by {
            Self::lemma_held_update(before.types@, i, self.types@[i], delta, h);
            assert(before.heaps@[h].used == before.held(h));
        }
    }

    /// The heaps of a device that has memory types with the properties,
    /// heap indices and settings of `types` and heaps of the sizes of
    /// `heaps`, and whose non-coherent atom size is `atom`. Nothing is
    /// taken yet.
    pub fn new(types: Vec<(MemoryProperties, u32, HeapsConfig)>, heaps: Vec<u64>, atom: u64) -> (r:
        Self)
        requires
            types@.len() <= 32,
            is_pow2(atom as int),
            forall|i: int|
                0 <= i < types@.len() ==> (#[trigger] types@[i]).1 < heaps@.len()
                    && types@[i].2.valid(),
        ensures
            r.wf(),
            r.idle(),
            r.atom == atom,
            r.heaps@.len() == heaps@.len(),
            forall|h: int|
                0 <= h < heaps@.len() ==> #[trigger] r.heaps@[h] == (MemoryHeap {
                    size: heaps@[h],
                    used: 0,
                }),
            r.types@.len() == types@.len(),
            forall|i: int|
                0 <= i < types@.len() ==> (#[trigger] r.types@[i]).made(
                    i as u32,
                    types@[i].1 as usize,
                    types@[i].0,
                    types@[i].2,
                    atom,
                ),
    {
        let mut budgets: Vec<MemoryHeap> = Vec::new();
        let mut h: usize = 0;
        while h < heaps.len()
            invariant
                h <= heaps@.len(),
                budgets@.len() == h,
                forall|j: int|
                    0 <= j < h ==> #[trigger] budgets@[j] == (MemoryHeap {
                        size: heaps@[j],
                        used: 0,
                    }),
            decreases heaps@.len() - h,
        {
            budgets.push(MemoryHeap::new(heaps[h]));
            h = h + 1;
        }
        let mut built: Vec<MemoryType> = Vec::new();
        let mut index: usize = 0;
        while index < types.len()
            invariant
                index <= types@.len() <= 32,
                is_pow2(atom as int),
                built@.len() == index,
                forall|i: int|
                    0 <= i < types@.len() ==> (#[trigger] types@[i]).1 < heaps@.len()
                        && types@[i].2.valid(),
                forall|i: int|
                    0 <= i < index ==> (#[trigger] built@[i]).wf() && built@[i].made(
                        i as u32,
                        types@[i].1 as usize,
                        types@[i].0,
                        types@[i].2,
                        atom,
                    ),
            decreases types@.len() - index,
        {
            let entry: (MemoryProperties, u32, HeapsConfig) = types[index];
            built.push(MemoryType::new(index as u32, entry.1 as usize, entry.0, entry.2, atom));
            index = index + 1;
        }
        let r = Heaps { types: built, heaps: budgets, atom };
        proof {
            assert forall|k: int| 0 <= k < r.heaps@.len() implies (#[trigger] r.heaps@[k]).used
                <= r.heaps@[k].size && r.heaps@[k].used == r.held(k) by {
                assert forall|i: int| 0 <= i < r.types@.len() implies shares(r.types@, k)[i]
                    == 0 by {
                    assert(r.types@[i].made(
                        i as u32,
                        types@[i].1 as usize,
                        types@[i].0,
                        types@[i].2,
                        atom,
                    ));
                }
                lemma_sum_zero(shares(r.types@, k));
            }
        }
        r
    }

    /// Number of memory types.
    pub fn memory_types(&self) -> (n: usize)
        ensures
            n == self.types@.len(),
    {
        self.types.len()
    }

    /// Properties of memory type `index`.
    pub fn properties(&self, index: u32) -> (p: MemoryProperties)
        requires
            index < self.types@.len(),
        ensures
            p == self.types@[index as int].properties,
    {
        self.types[index as usize].properties
    }

    /// Number of heaps.
    pub fn heap_count(&self) -> (n: usize)
        ensures
            n == self.heaps@.len(),
    {
        self.heaps.len()
    }

    /// Index of the heap that memory type `index` draws on.
    pub fn heap_of(&self, index: u32) -> (heap: usize)
        requires
            index < self.types@.len(),
        ensures
            heap == self.types@[index as int].heap_index,
    {
        self.types[index as usize].heap_index
    }

    /// Bytes that heap `heap` has.
    pub fn size(&self, heap: usize) -> (bytes: u64)
        requires
            heap < self.heaps@.len(),
        ensures
            bytes == self.heaps@[heap as int].size,
    {
        self.heaps[heap].size
    }

    /// Bytes taken of heap `heap`.
    pub fn used(&self, heap: usize) -> (bytes: u64)
        requires
            heap < self.heaps@.len(),
        ensures
            bytes == self.spec_used(heap as int),
    {
        self.heaps[heap].used
    }

    /// Whether no block is out.
    pub fn is_idle(&self) -> (b: bool)
        requires
            self.wf(),
        ensures
            b == self.idle(),
    {
        let mut index: usize = 0;
        while index < self.types.len()
            invariant
                self.wf(),
                index <= self.types@.len(),
                forall|i: int| 0 <= i < index ==> (#[trigger] self.types@[i]).idle(),
            decreases self.types@.len() - index,
        {
            assert(self.types@[index as int].wf());
            if !self.types[index].is_idle() {
                return false;
            }
            index = index + 1;
        }
        true
    }

    /// Whether `mask` allows memory type `index`.
    pub fn mask_allows(mask: u32, index: u32) -> (b: bool)
        requires
            index < 32,
        ensures
            b == allows(mask, index),
    {
        (1u32 << index) & mask != 0
    }

    /// Serves a request for a block of `size` bytes aligned to `align`
    /// from one of the memory types that `mask` allows, for `usage`.
    ///
    /// The memory types that the mask allows and that fit the usage are
    /// listed; of those whose heap has more than `size + align` bytes left
    /// the fittest serves the request, the one of lowest index if several
    /// are as fit. No heap has more than a sum that does not fit 64 bits.
    ///
    /// The chosen type cuts the block from memory it holds or asks for
    /// the raw memory it needs: a whole chunk, or the block's own
    /// allocation. Where that is more than its heap has left the request
    /// fails with `HeapsExhausted` and nothing changes; no heap is ever
    /// overdrawn.
    pub fn allocate(&mut self, mask: u32, usage: MemoryUsage, size: u64, align: u64) -> (r: Result<
        Allocation,
        MemoryError,
    >)
        requires
            old(self).wf(),
            size > 0,
            is_pow2(align as int),
        ensures
            final(self).wf(),
            Self::allocates(*old(self), *final(self), mask, usage, size, align, r),
            r matches Ok(Allocation::Ready(block)) ==> {
                &&& allows(mask, block.memory_index)
                &&& usage.spec_fitness(block.spec_properties()) is Some
                &&& block.spec_range().start % align == 0
                &&& block.spec_properties().is_host_visible() ==> block.spec_range().start % old(self).atom == 0
                &&& block.spec_range().end - block.spec_range().start >= size
            },
            r matches Ok(Allocation::NeedsMemory(request)) ==> {
                &&& allows(mask, request.memory_index)
                &&& usage.spec_fitness(
                    old(self).types@[request.memory_index as int].properties,
                ) is Some
                &&& request.size == size
                &&& request.align == align
            },
    {
        let count: usize = self.types.len();
        let mut suitable = shortlist_new();
        let ghost mut place: Seq<int> = Seq::empty();
        let mut index: usize = 0;
        while index < count
            invariant
                *self == *old(self),
                self.wf(),
                count == self.types@.len(),
                index <= count,
                place.len() == index,
                entries(suitable).len() <= index,
                forall|k: int|
                    0 <= k < entries(suitable).len() ==> {
                        &&& (#[trigger] entries(suitable)[k]).0 < index
                        &&& self.suitable(entries(suitable)[k].0 as int, mask, usage)
                        &&& entries(suitable)[k].1 == self.fit(
                            entries(suitable)[k].0 as int,
                            usage,
                        )
                    },
                forall|j: int|
                    #![trigger self.suitable(j, mask, usage)]
                    0 <= j < index && self.suitable(j, mask, usage) ==> 0 <= place[j] < entries(
                        suitable,
                    ).len() && entries(suitable)[place[j]].0 == j,
                forall|a: int, b: int|
                    0 <= a < b < entries(suitable).len() ==> (#[trigger] entries(suitable)[a]).0 < (
                    #[trigger] entries(suitable)[b]).0,
            decreases count - index,
        {
            let ghost listed = entries(suitable);
            let mut fitness: Option<u8> = None;
            if Self::mask_allows(mask, index as u32) {
                fitness = usage.fitness(self.types[index].properties);
            }
            match fitness {
                Some(f) => {
                    shortlist_push(&mut suitable, index as u32, f);
                    proof {
                        place = place.push(listed.len() as int);
                    }
                },
                None => {
                    proof {
                        place = place.push(-1);
                    }
                },
            }
            index = index + 1;
        }
        let listed: usize = shortlist_len(&suitable);
        if listed == 0 {
            return Err(MemoryError::NoSuitableMemory(mask, usage));
        }
        let spare: Option<u64> = size.checked_add(align);
        let mut best: Option<(u32, u8)> = None;
        let ghost mut best_at: int = 0;
        let mut k: usize = 0;
        while k < listed
            invariant
                *self == *old(self),
                self.wf(),
                spare == (if size + align <= u64::MAX {
                    Some((size + align) as u64)
                } else {
                    None
                }),
                listed == entries(suitable).len(),
                k <= listed,
                forall|m: int|
                    0 <= m < entries(suitable).len() ==> {
                        &&& (#[trigger] entries(suitable)[m]).0 < self.types@.len()
                        &&& self.suitable(entries(suitable)[m].0 as int, mask, usage)
                        &&& entries(suitable)[m].1 == self.fit(
                            entries(suitable)[m].0 as int,
                            usage,
                        )
                    },
                forall|a: int, b: int|
                    0 <= a < b < entries(suitable).len() ==> (#[trigger] entries(suitable)[a]).0 < (
                    #[trigger] entries(suitable)[b]).0,
                best is None ==> forall|m: int|
                    0 <= m < k ==> !self.admitted(
                        (#[trigger] entries(suitable)[m]).0 as int,
                        size,
                        align,
                    ),
                best matches Some(pair) ==> {
                    &&& 0 <= best_at < k
                    &&& entries(suitable)[best_at] == pair
                    &&& self.admitted(pair.0 as int, size, align)
                    &&& forall|m: int|
                        0 <= m < k && self.admitted(
                            (#[trigger] entries(suitable)[m]).0 as int,
                            size,
                            align,
                        ) ==> entries(suitable)[m].1 < pair.1 || (entries(suitable)[m].1 == pair.1
                            && pair.0 <= entries(suitable)[m].0)
                },
            decreases listed - k,
        {
            let pair: (u32, u8) = shortlist_get(&suitable, k);
            assert(self.types@[pair.0 as int].wf());
            let heap_index: usize = self.types[pair.0 as usize].heap_index;
            assert(self.heaps@[heap_index as int].wf());
            let room: bool = match spare {
                Some(least) => self.heaps[heap_index].available() > least,
                None => false,
            };
            if room {
                let better: bool = match best {
                    None => true,
                    Some(held) => pair.1 > held.1,
                };
                if better {
                    best = Some(pair);
                    proof {
                        best_at = k as int;
                    }
                }
            }
            k = k + 1;
        }
        match best {
            None => {
                proof {
                    assert(self.suitable(entries(suitable)[0].0 as int, mask, usage));
                    assert forall|j: int|
                        !(self.suitable(j, mask, usage) && self.admitted(j, size, align)) by {
                        if self.suitable(j, mask, usage) {
                            assert(entries(suitable)[place[j]].0 == j);
                        }
                    }
                }
                Err(MemoryError::HeapsExhausted)
            },
            Some(pair) => {
                proof {
                    let i = pair.0 as int;
                    assert(self.suitable(entries(suitable)[best_at].0 as int, mask, usage));
                    assert forall|j: int|
                        #![trigger self.suitable(j, mask, usage)]
                        self.suitable(j, mask, usage) && self.admitted(
                            j,
                            size,
                            align,
                        ) implies self.fit(j, usage) < self.fit(i, usage) || (self.fit(j, usage)
                        == self.fit(i, usage) && i <= j) by {
                        assert(entries(suitable)[place[j]].0 == j);
                    }
                    assert(self.chosen(i, mask, usage, size, align));
                    self.lemma_chosen_unique(
                        i,
                        self.pick(mask, usage, size, align),
                        mask,
                        usage,
                        size,
                        align,
                    );
                }
                self.allocate_from(pair.0, usage, size, align)
            },
        }
    }

    /// Serves a request from memory type `memory_index`, whatever its
    /// fitness.
    pub fn allocate_from(
        &mut self,
        memory_index: u32,
        usage: MemoryUsage,
        size: u64,
        align: u64,
    ) -> (r: Result<Allocation, MemoryError>)
        requires
            old(self).wf(),
            memory_index < old(self).types@.len(),
            size > 0,
            is_pow2(align as int),
        ensures
            final(self).wf(),
            Self::allocates_from(*old(self), *final(self), memory_index, usage, size, align, r),
    {
        let index: usize = memory_index as usize;
        assert(self.types@[index as int].wf());
        let heap_index: usize = self.types[index].heap_index;
        assert(self.heaps@[heap_index as int].wf());
        let available: u64 = self.heaps[heap_index].available();
        if available < size {
            return Err(MemoryError::HeapsExhausted);
        }
        let ghost before = *self;
        let r = self.types[index].allocate(usage, size, align, available);
        proof {
            let t = self.types@[index as int];
            self.lemma_replaced(before, index as int, 0);
            if r is Ok && r->Ok_0 is Ready {
                assert(self.cut(before, r->Ok_0->Ready_0));
            } else {
                assert(self.types@ =~= before.types@);
            }
        }
        r
    }

    /// Whether `request` is one that these heaps can complete now.
    pub fn accepts(&self, request: &MemoryRequest) -> (b: bool)
        requires
            self.wf(),
        ensures
            b == self.expects(*request),
    {
        let index: usize = request.memory_index as usize;
        if index >= self.types.len() {
            return false;
        }
        assert(self.types@[index as int].wf());
        let heap_index: usize = self.types[index].heap_index;
        assert(self.heaps@[heap_index as int].wf());
        self.types[index].accepts(request) && request.bytes <= self.heaps[heap_index].available()
    }

    /// Takes the device's answer to `request`: the handle of the raw
    /// allocation, or its error.
    pub fn complete(&mut self, request: MemoryRequest, outcome: Result<u64, DeviceError>) -> (r:
        Result<MemoryBlock, MemoryError>)
        requires
            old(self).wf(),
            old(self).expects(request),
        ensures
            final(self).wf(),
            Self::completes(*old(self), *final(self), request, outcome, r),
            r matches Ok(block) ==> {
                &&& block.memory_index == request.memory_index
                &&& block.spec_properties() == old(self).types@[request.memory_index as int].properties
                &&& block.spec_range().start % request.align == 0
                &&& block.spec_properties().is_host_visible() ==> block.spec_range().start % old(self).atom == 0
                &&& block.spec_range().end - block.spec_range().start >= request.size
            },
    {
        match outcome {
            Err(e) => Err(MemoryError::from_device(e)),
            Ok(raw) => {
                let index: usize = request.memory_index as usize;
                let ghost before = *self;
                proof {
                    before.lemma_share(index as int);
                }
                let heap_index: usize = self.types[index].heap_index;
                let (block, allocated) = self.types[index].complete(&request, raw);
                let used: u64 = self.heaps[heap_index].used;
                self.heaps[heap_index].used = used + allocated;
                proof {
                    assert(self.heaps@ =~= before.heaps@.update(
                        heap_index as int,
                        MemoryHeap {
                            size: before.heaps@[heap_index as int].size,
                            used: (before.heaps@[heap_index as int].used + request.bytes) as u64,
                        },
                    ));
                    self.lemma_replaced(before, index as int, request.bytes as int);
                    assert(self.cut(before, block));
                }
                Ok(block)
            },
        }
    }

    /// Takes a block back. Returns what the device has to free with it,
    /// oldest first.
    pub fn free(&mut self, block: MemoryBlock) -> (released: Vec<Release>)
        requires
            old(self).wf(),
            old(self).holds(block),
        ensures
            final(self).wf(),
            Self::frees(*old(self), *final(self), block, released@),
    {
        let index: usize = block.memory_index as usize;
        let ghost before = *self;
        proof {
            before.lemma_share(index as int);
        }
        let heap_index: usize = self.types[index].heap_index;
        let (released, freed) = self.types[index].free(block);
        proof {
            assert(self.types@[index as int].resident() >= 0);
        }
        let used: u64 = self.heaps[heap_index].used;
        self.heaps[heap_index].used = used - freed;
        proof {
            assert(self.heaps@ =~= before.heaps@.update(
                heap_index as int,
                MemoryHeap {
                    size: before.heaps@[heap_index as int].size,
                    used: (before.heaps@[heap_index as int].used - freed) as u64,
                },
            ));
            self.lemma_replaced(before, index as int, -(freed as int));
            assert(self.returned(before, block));
        }
        released
    }

    /// Gives up the heaps, which have no block out. Returns what the
    /// device has to free: the chunks that the arenas kept, by memory
    /// type.
    pub fn dispose(self) -> (released: Vec<Release>)
        requires
            self.wf(),
            self.idle(),
        ensures
            released@ == retained_from(self.types@, 0),
    {
        let mut types: Vec<MemoryType> = self.types;
        let ghost all = types@;
        let mut released: Vec<Release> = Vec::new();
        while types.len() > 0
            invariant
                types@.len() <= all.len(),
                types@ == all.subrange(all.len() - types@.len(), all.len() as int),
                forall|i: int| 0 <= i < all.len() ==> (#[trigger] all[i]).wf() && all[i].idle(),
                released@ + retained_from(all, all.len() - types@.len()) == retained_from(all, 0),
            decreases types@.len(),
        {
            let ghost at = all.len() - types@.len();
            let t: MemoryType = types.remove(0);
            assert(t == all[at]);
            let mut more: Vec<Release> = t.dispose();
            proof {
                assert(types@ =~= all.subrange(at + 1, all.len() as int));
                assert((released@ + more@) + retained_from(all, at + 1) =~= released@ + (more@
                    + retained_from(all, at + 1)));
            }
            released.append(&mut more);
        }
        assert(released@ + retained_from(all, all.len() as int) =~= released@);
        released
    }

    /// The raw allocation that `block` lies in.
    pub open spec fn memory_of(self, block: MemoryBlock) -> Memory {
        self.types@[block.memory_index as int].memory_of(block)
    }

    /// What a change of the mapping of the block's raw allocation leaves
    /// as it was: the budgets, the blocks that are out, and of the block
    /// all but the record of its raw allocation.
    pub open spec fn remapped(self, before: Heaps, block: MemoryBlock, was: MemoryBlock) -> bool {
        let i = was.memory_index as int;
        &&& self.atom == before.atom
        &&& self.heaps@ == before.heaps@
        &&& self.types@ == before.types@.update(i, self.types@[i])
        &&& self.types@[i].remapped(before.types@[i], block, was)
        &&& block.memory_index == was.memory_index
        &&& self.holds(block)
        &&& self.idle() == before.idle()
        &&& forall|x: MemoryBlock|
            #![trigger self.memory_of(x)]
            before.holds(x) && !x.shares_allocation(was) ==> self.memory_of(x)
                == before.memory_of(x)
        &&& forall|x: MemoryBlock| #![trigger before.holds(x)] before.holds(x) ==> self.holds(x)
        &&& forall|x: MemoryBlock| #![trigger self.holds(x)] self.holds(x) ==> before.holds(x)
    }

    /// What `map` does: a block whose memory is not host-visible is
    /// refused with `HostInvisible`, whatever the range; else a range that
    /// is not inside the block is refused with `OutsideBlock`; else the
    /// block's raw allocation opens the window or says why it cannot.
    pub open spec fn maps(
        before: Heaps,
        after: Heaps,
        was: MemoryBlock,
        block: MemoryBlock,
        range: Range<u64>,
        r: Result<MapStep, MappingError>,
    ) -> bool {
        let memory = before.memory_of(was);
        if !was.spec_properties().is_host_visible() {
            r == Err::<MapStep, MappingError>(MappingError::HostInvisible) && after.memory_of(block)
                == memory
        } else if !contains_range(was.spec_range(), range) {
            r == Err::<MapStep, MappingError>(MappingError::OutsideBlock) && after.memory_of(block)
                == memory
        } else {
            Memory::opens(memory, after.memory_of(block), range, r)
        }
    }

    /// A block lies inside its raw allocation and has its handle and
    /// properties.
    pub proof fn lemma_block_inside(self, block: MemoryBlock)
        requires
            self.wf(),
            self.holds(block),
        ensures
            block.spec_range().start <= block.spec_range().end <= self.memory_of(block).size,
            self.memory_of(block).wf(),
            self.memory_of(block).raw == block.spec_memory(),
            self.memory_of(block).properties == block.spec_properties(),
            block.spec_properties() == self.types@[block.memory_index as int].properties,
    {
        assert(self.types@[block.memory_index as int].wf());
        self.types@[block.memory_index as int].lemma_block_inside(block);
    }

    proof fn lemma_remapped(self, before: Heaps, block: MemoryBlock, was: MemoryBlock)
        requires
            before.wf(),
            before.holds(was),
            self.atom == before.atom,
            self.heaps@ == before.heaps@,
            self.types@ == before.types@.update(
                was.memory_index as int,
                self.types@[was.memory_index as int],
            ),
            self.types@[was.memory_index as int].wf(),
            self.types@[was.memory_index as int].remapped(
                before.types@[was.memory_index as int],
                block,
                was,
            ),
            block.memory_index == was.memory_index,
        ensures
            self.wf(),
            self.remapped(before, block, was),
    {
        let i = was.memory_index as int;
        self.lemma_replaced(before, i, 0);
        assert forall|x: MemoryBlock| #![trigger before.holds(x)] before.holds(x) implies self.holds(
            x,
        ) by {
            if x.memory_index != i {
                assert(self.types@[x.memory_index as int] == before.types@[x.memory_index as int]);
            }
        }
        assert forall|x: MemoryBlock| #![trigger self.holds(x)] self.holds(x) implies before.holds(
            x,
        ) by {
            if x.memory_index != i {
                assert(self.types@[x.memory_index as int] == before.types@[x.memory_index as int]);
            }
        }
        if before.idle() {
            assert forall|j: int| 0 <= j < self.types@.len() implies (#[trigger] self.types@[j]).idle() by {
                assert(before.types@[j].idle());
            }
        }
        if self.idle() {
            assert forall|j: int| 0 <= j < before.types@.len() implies (
            #[trigger] before.types@[j]).idle() by {
                assert(self.types@[j].idle());
            }
        }
    }

    /// The record of the raw allocation that `block` lies in.
    pub fn memory(&self, block: &MemoryBlock) -> (m: Memory)
        requires
            self.wf(),
            self.holds(*block),
        ensures
            m == self.memory_of(*block),
    {
        assert(self.types@[block.memory_index as int].wf());
        self.types[block.memory_index as usize].memory(block)
    }

    /// Opens a window over `range`, given as offsets into the block's raw
    /// allocation, for the host to read or write the block through.
    ///
    /// A block whose memory is not host-visible is refused with
    /// `HostInvisible`, and on host-visible memory a range that is not
    /// inside the block with `OutsideBlock`. Where the raw allocation is
    /// mapped already the window shares that mapping. Where it is not, the
    /// device has to map it, and its answer goes to `attach`.
    pub fn map(&mut self, block: &mut MemoryBlock, range: &Range<u64>) -> (r: Result<
        MapStep,
        MappingError,
    >)
        requires
            old(self).wf(),
            old(self).holds(*old(block)),
        ensures
            final(self).wf(),
            final(self).remapped(*old(self), *final(block), *old(block)),
            Self::maps(*old(self), *final(self), *old(block), *final(block), *range, r),
    {
        let ghost before = *self;
        let ghost was = *block;
        let index: usize = block.memory_index as usize;
        assert(self.types@[index as int].wf());
        let mut memory: Memory = self.types[index].memory(block);
        proof {
            before.lemma_block_inside(was);
        }
        let within: Range<u64> = block.range();
        let inside: bool = within.start <= range.start && range.start <= range.end && range.end
            <= within.end;
        let step: Result<MapStep, MappingError> = if !block.properties().host_visible() {
            Err(MappingError::HostInvisible)
        } else if inside {
            memory.map(range)
        } else {
            Err(MappingError::OutsideBlock)
        };
        self.types[index].set_mapping(block, memory.host, memory.mapped);
        proof {
            self.lemma_remapped(before, *block, was);
        }
        step
    }

    /// Takes the device's answer to a request to map the block's raw
    /// allocation, made for a window over `range`.
    pub fn attach(
        &mut self,
        block: &mut MemoryBlock,
        range: &Range<u64>,
        outcome: Result<usize, DeviceError>,
    ) -> (r: Result<MappedRange, MappingError>)
        requires
            old(self).wf(),
            old(self).holds(*old(block)),
            contains_range(old(block).spec_range(), *range),
            old(self).memory_of(*old(block)).host is None,
            old(self).memory_of(*old(block)).map_refusal(*range) is None,
        ensures
            final(self).wf(),
            final(self).remapped(*old(self), *final(block), *old(block)),
            Memory::attaches(
                old(self).memory_of(*old(block)),
                final(self).memory_of(*final(block)),
                *range,
                outcome,
                r,
            ),
    {
        let ghost before = *self;
        let ghost was = *block;
        let index: usize = block.memory_index as usize;
        assert(self.types@[index as int].wf());
        let mut memory: Memory = self.types[index].memory(block);
        proof {
            before.lemma_block_inside(was);
        }
        let window: Result<MappedRange, MappingError> = memory.attach(range, outcome);
        self.types[index].set_mapping(block, memory.host, memory.mapped);
        proof {
            self.lemma_remapped(before, *block, was);
        }
        window
    }

    /// Closes one window onto the block's raw allocation. Returns the
    /// handle of the raw allocation where that was its last window and
    /// the device has to unmap it.
    pub fn unmap(&mut self, block: &mut MemoryBlock) -> (r: Option<u64>)
        requires
            old(self).wf(),
            old(self).holds(*old(block)),
            old(self).memory_of(*old(block)).mapped > 0,
        ensures
            final(self).wf(),
            final(self).remapped(*old(self), *final(block), *old(block)),
            Memory::closes(
                old(self).memory_of(*old(block)),
                final(self).memory_of(*final(block)),
                r is Some,
            ),
            r matches Some(raw) ==> raw == old(block).spec_memory(),
    {
        let ghost before = *self;
        let ghost was = *block;
        let index: usize = block.memory_index as usize;
        assert(self.types@[index as int].wf());
        let mut memory: Memory = self.types[index].memory(block);
        proof {
            before.lemma_block_inside(was);
        }
        let last: bool = memory.close();
        self.types[index].set_mapping(block, memory.host, memory.mapped);
        proof {
            self.lemma_remapped(before, *block, was);
        }
        if last {
            Some(memory.raw)
        } else {
            None
        }
    }

    /// What can be told of a block that is out without knowing which
    /// blocks were handed out: its memory type is there and finds it
    /// plausible.
    pub open spec fn plausible(self, block: MemoryBlock) -> bool {
        block.memory_index < self.types@.len() && self.types@[block.memory_index as int].plausible(
            block,
        )
    }

    /// A block that is out is plausible.
    pub proof fn lemma_plausible(self, block: MemoryBlock)
        requires
            self.wf(),
            self.holds(block),
        ensures
            self.plausible(block),
    {
        assert(self.types@[block.memory_index as int].wf());
        self.types@[block.memory_index as int].lemma_plausible(block);
    }

    /// Whether `block` may be out of these heaps. A block that fails this
    /// is not out and must not be freed or mapped here.
    pub fn is_plausible(&self, block: &MemoryBlock) -> (b: bool)
        requires
            self.wf(),
        ensures
            b == self.plausible(*block),
    {
        let index: usize = block.memory_index as usize;
        if index >= self.types.len() {
            return false;
        }
        assert(self.types@[index as int].wf());
        self.types[index].is_plausible(block)
    }
}

} // verus!
