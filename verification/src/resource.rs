//! Memory pooling and resource accounting.
use std::collections::HashMap;
use std::collections::VecDeque;
use std::time::Instant;
use vstd::arithmetic::power2::{lemma2_to64, pow2};
use vstd::prelude::*;
use crate::clock::{instant_now, nanos_since};

verus! {

broadcast use vstd::std_specs::hash::group_hash_axioms;

/// Number of size classes of a [`MemoryPool`]; class `i` holds blocks of
/// `base_size * 2^i` bytes.
pub const SIZE_CLASSES: usize = 8;

/// A block of memory handed out by a [`MemoryPool`].
#[derive(Debug)]
pub struct MemoryBlock {
    /// The bytes of the block.
    pub data: Vec<u8>,
    /// The size of the block in bytes (its size class).
    pub size: usize,
    /// When the block was first allocated.
    pub allocated_at: Instant,
}

/// The index of the first class in `sizes`, from index `k` on, whose size is
/// at least `size`; `sizes.len()` when there is none.
pub open spec fn first_fit_from(sizes: Seq<usize>, size: usize, k: int) -> int
    decreases sizes.len() - k,
{
    if k >= sizes.len() {
        sizes.len() as int
    } else if size <= sizes[k] {
        k
    } else {
        first_fit_from(sizes, size, k + 1)
    }
}

/// The index of the first class in `sizes` whose size is at least `size`;
/// `sizes.len()` when there is none.
pub open spec fn first_fit(sizes: Seq<usize>, size: usize) -> int {
    first_fit_from(sizes, size, 0)
}

/// `first_fit` is the least index whose class holds `size` bytes.
pub proof fn lemma_first_fit(sizes: Seq<usize>, size: usize, k: int)
    requires
        0 <= k <= sizes.len(),
    ensures
        k <= first_fit_from(sizes, size, k) <= sizes.len(),
        forall|j: int| k <= j < first_fit_from(sizes, size, k) ==> sizes[j] < size,
        first_fit_from(sizes, size, k) < sizes.len() ==> size <= sizes[first_fit_from(sizes, size, k)],
    decreases sizes.len() - k,
{
    if k < sizes.len() && size > sizes[k] {
        lemma_first_fit(sizes, size, k + 1);
    }
}

/// The sum of the sizes in `s`.
pub open spec fn sum_sizes(s: Seq<usize>) -> int
    decreases s.len(),
{
    if s.len() == 0 {
        0
    } else {
        sum_sizes(s.drop_last()) + s.last()
    }
}

/// Wrapping addition on 64 bits, as `AtomicU64::fetch_add` performs it.
pub open spec fn add_wrapping(x: u64, y: u64) -> u64 {
    vstd::wrapping::u64_specs::wrapping_add(x, y)
}

/// Wrapping subtraction on 64 bits, as `AtomicU64::fetch_sub` performs it.
pub open spec fn sub_wrapping(x: u64, y: u64) -> u64 {
    vstd::wrapping::u64_specs::wrapping_sub(x, y)
}

/// Memory figures of a pool.
#[derive(Clone, Debug)]
pub struct MemoryStats {
    /// The sum of the sizes of all size classes.
    pub total: u64,
    /// The bytes currently held by the pool, in use or pooled.
    pub used: u64,
    /// The same figure as `used`.
    pub peak: u64,
}

/// A pool of memory blocks in `SIZE_CLASSES` size classes, each of which keeps
/// up to `max_blocks_per_pool` freed blocks for reuse.
pub struct MemoryPool {
    pools: Vec<VecDeque<MemoryBlock>>,
    block_sizes: Vec<usize>,
    max_blocks_per_pool: usize,
    total_allocated: u64,
}

impl MemoryPool {
    /// The size of each class, smallest first.
    pub closed spec fn class_sizes(&self) -> Seq<usize> {
        self.block_sizes@
    }

    /// The freed blocks kept for each class, oldest first.
    pub closed spec fn free_blocks(&self) -> Seq<Seq<MemoryBlock>> {
        self.pools@.map_values(|q: VecDeque<MemoryBlock>| q@)
    }

    /// How many freed blocks a class keeps at most.
    pub closed spec fn blocks_per_class(&self) -> usize {
        self.max_blocks_per_pool
    }

    /// The bytes held by the pool: allocated and not given back to the system.
    pub closed spec fn allocated_bytes(&self) -> u64 {
        self.total_allocated
    }

    /// The pool's invariant: `SIZE_CLASSES` classes of doubling size, each
    /// keeping at most `blocks_per_class` blocks of exactly its size.
    pub open spec fn wf(&self) -> bool {
        &&& self.class_sizes().len() == SIZE_CLASSES
        &&& self.free_blocks().len() == SIZE_CLASSES
        &&& forall|i: int|
            0 <= i < SIZE_CLASSES ==> #[trigger] self.class_sizes()[i] == self.class_sizes()[0]
                * pow2(i as nat)
        &&& forall|i: int|
            0 <= i < SIZE_CLASSES ==> #[trigger] self.free_blocks()[i].len()
                <= self.blocks_per_class()
        &&& forall|i: int, j: int|
            0 <= i < SIZE_CLASSES && 0 <= j < self.free_blocks()[i].len() ==> (
            #[trigger] self.free_blocks()[i][j]).size == self.class_sizes()[i]
    }

    /// `post` and `block` are what `allocate(size)` gives from `pre`: the
    /// oldest pooled block of the first class that holds `size` bytes, or a
    /// new zeroed block of that class whose size is added to the allocated
    /// bytes, or nothing when no class is large enough.
    pub open spec fn allocation(pre: Self, size: usize, post: Self, block: Option<MemoryBlock>) -> bool {
        let idx = first_fit(pre.class_sizes(), size);
        let pooled = pre.free_blocks();
        &&& post.class_sizes() == pre.class_sizes()
        &&& post.blocks_per_class() == pre.blocks_per_class()
        &&& if idx >= SIZE_CLASSES {
            &&& block is None
            &&& post.free_blocks() == pooled
            &&& post.allocated_bytes() == pre.allocated_bytes()
        } else if pooled[idx].len() > 0 {
            &&& block == Some(pooled[idx][0])
            &&& post.free_blocks() == pooled.update(idx, pooled[idx].drop_first())
            &&& post.allocated_bytes() == pre.allocated_bytes()
        } else {
            &&& block matches Some(b) && b.size == pre.class_sizes()[idx] && b.data@ == Seq::new(
                b.size as nat,
                |k: int| 0u8,
            ) && post.allocated_bytes() == add_wrapping(pre.allocated_bytes(), b.size as u64)
            &&& post.free_blocks() == pooled
        }
    }

    /// Whether the class that takes `block` back has room for it.
    pub open spec fn keeps_on_release(pre: Self, block: MemoryBlock) -> bool {
        let idx = first_fit(pre.class_sizes(), block.size);
        idx < SIZE_CLASSES && pre.free_blocks()[idx].len() < pre.blocks_per_class()
    }

    /// Whether releasing `block` keeps every pooled block at its class size:
    /// the block is released to the system, or it has its class's size.
    pub open spec fn release_keeps_shape(pre: Self, block: MemoryBlock) -> bool {
        Self::keeps_on_release(pre, block) ==> block.size == pre.class_sizes()[first_fit(
            pre.class_sizes(),
            block.size,
        )]
    }

    /// `post` is what `deallocate(block)` leaves from `pre`: the block joins
    /// the pooled blocks of the first class that holds its size when that
    /// class has room, else its size is taken off the allocated bytes.
    pub open spec fn release(pre: Self, block: MemoryBlock, post: Self) -> bool {
        let idx = first_fit(pre.class_sizes(), block.size);
        let pooled = pre.free_blocks();
        &&& post.class_sizes() == pre.class_sizes()
        &&& post.blocks_per_class() == pre.blocks_per_class()
        &&& if Self::keeps_on_release(pre, block) {
            &&& post.free_blocks() == pooled.update(idx, pooled[idx].push(block))
            &&& post.allocated_bytes() == pre.allocated_bytes()
        } else {
            &&& post.free_blocks() == pooled
            &&& post.allocated_bytes() == sub_wrapping(pre.allocated_bytes(), block.size as u64)
        }
    }

    /// Creates a pool whose class `i` holds blocks of `base_size * 2^i` bytes
    /// and keeps up to `max_blocks` freed blocks.
    pub fn new(base_size: usize, max_blocks: usize) -> (pool: Self)
        requires
            base_size * 128 <= usize::MAX,
        ensures
            pool.wf(),
            pool.class_sizes()[0] == base_size,
            pool.blocks_per_class() == max_blocks,
            pool.allocated_bytes() == 0,
            forall|i: int| 0 <= i < SIZE_CLASSES ==> #[trigger] pool.free_blocks()[i].len() == 0,
    {
        let mut pools: Vec<VecDeque<MemoryBlock>> = Vec::new();
        let mut block_sizes: Vec<usize> = Vec::new();
        let mut factor: usize = 1;
        let mut i: usize = 0;
        proof {
            lemma2_to64();
        }
        while i < SIZE_CLASSES
            invariant
                i <= SIZE_CLASSES,
                i < SIZE_CLASSES ==> factor == pow2(i as nat),
                base_size * 128 <= usize::MAX,
                block_sizes@.len() == i,
                pools@.len() == i,
                forall|j: int| 0 <= j < i ==> #[trigger] block_sizes@[j] == base_size * pow2(j as nat),
                forall|j: int| 0 <= j < i ==> (#[trigger] pools@[j])@.len() == 0,
            decreases SIZE_CLASSES - i,
        {
            proof {
                lemma2_to64();
            }
            assert(base_size * factor <= base_size * 128) by (nonlinear_arith)
                requires
                    factor <= 128,
            ;
            let size = base_size * factor;
            pools.push(VecDeque::with_capacity(max_blocks));
            block_sizes.push(size);
            if i + 1 < SIZE_CLASSES {
                factor = factor * 2;
                proof {
                    lemma2_to64();
                }
            }
            i = i + 1;
        }
        let pool = MemoryPool {
            pools,
            block_sizes,
            max_blocks_per_pool: max_blocks,
            total_allocated: 0,
        };
        proof {
            lemma2_to64();
            assert(pool.class_sizes() == pool.block_sizes@);
            assert(pool.class_sizes()[0] == base_size * pow2(0));
            assert(pool.class_sizes()[0] == base_size);
            assert forall|i: int| 0 <= i < SIZE_CLASSES implies #[trigger] pool.free_blocks()[i].len()
                == 0 by {
                assert(pool.free_blocks()[i] == pool.pools@[i]@);
            }
        }
        pool
    }

    /// The index of the first class whose blocks hold `size` bytes, or the
    /// number of classes when no class is large enough.
    pub fn find_pool_index(&self, size: usize) -> (index: usize)
        ensures
            index == first_fit(self.class_sizes(), size),
    {
        let mut i: usize = 0;
        while i < self.block_sizes.len()
            invariant
                i <= self.block_sizes@.len(),
                first_fit_from(self.block_sizes@, size, i as int) == first_fit(self.block_sizes@, size),
            decreases self.block_sizes@.len() - i,
        {
            if size <= self.block_sizes[i] {
                return i;
            }
            i = i + 1;
        }
        self.block_sizes.len()
    }

    /// The capacity figures of the pool.
    pub fn stats(&self) -> (stats: MemoryStats)
        requires
            self.wf(),
            self.class_sizes()[0] * 255 <= usize::MAX,
        ensures
            stats.total == sum_sizes(self.class_sizes()),
            stats.used == self.allocated_bytes(),
            stats.peak == self.allocated_bytes(),
    {
        let mut total_capacity: usize = 0;
        let mut i: usize = 0;
        let ghost base = self.class_sizes()[0];
        proof {
            lemma2_to64();
        }
        while i < self.block_sizes.len()
            invariant
                self.wf(),
                base == self.class_sizes()[0],
                base * 255 <= usize::MAX,
                i <= SIZE_CLASSES,
                total_capacity == sum_sizes(self.block_sizes@.take(i as int)),
                total_capacity == base * (pow2(i as nat) - 1),
            decreases SIZE_CLASSES - i,
        {
            proof {
                lemma2_to64();
                assert(self.block_sizes@.take(i + 1).drop_last() == self.block_sizes@.take(i as int));
                assert(self.block_sizes@[i as int] == base * pow2(i as nat));
                let p = pow2(i as nat);
                assert(pow2((i + 1) as nat) == 2 * p);
                assert(base * (p - 1) + base * p == base * (2 * p - 1)) by (nonlinear_arith);
                assert(base * (2 * p - 1) <= base * 255) by (nonlinear_arith)
                    requires
                        p <= 128,
                        base >= 0,
                ;
            }
            total_capacity = total_capacity + self.block_sizes[i];
            i = i + 1;
        }
        proof {
            assert(self.block_sizes@.take(SIZE_CLASSES as int) == self.block_sizes@);
        }
        let used = self.total_allocated;
        MemoryStats { total: total_capacity as u64, used, peak: used }
    }

    /// Hands out a block of the first class that holds `size` bytes: the
    /// oldest pooled block of that class when there is one, else a new zeroed
    /// block, whose size is then added to the allocated bytes. `None` when no
    /// class is large enough.
    pub fn allocate(&mut self, size: usize) -> (block: Option<MemoryBlock>)
        requires
            old(self).wf(),
        ensures
            final(self).wf(),
            Self::allocation(*old(self), size, *final(self), block),
    {
        let pool_index = self.find_pool_index(size);
        proof {
            lemma_first_fit(self.block_sizes@, size, 0);
        }
        if pool_index >= self.pools.len() {
            return None;
        }
        let ghost before = self.free_blocks();
        let popped = self.pools[pool_index].pop_front();
        if let Some(block) = popped {
            proof {
                assert(self.free_blocks() =~= before.update(
                    pool_index as int,
                    before[pool_index as int].drop_first(),
                ));
                assert forall|i: int, j: int|
                    0 <= i < SIZE_CLASSES && 0 <= j < self.free_blocks()[i].len() implies (
                #[trigger] self.free_blocks()[i][j]).size == self.class_sizes()[i] by {
                    if i == pool_index {
                        assert(self.free_blocks()[i][j] == before[i][j + 1]);
                    }
                }
                assert forall|i: int| 0 <= i < SIZE_CLASSES implies #[trigger] self.free_blocks()[i].len()
                    <= self.blocks_per_class() by {
                    if i == pool_index {
                        assert(self.free_blocks()[i].len() < before[i].len());
                    }
                }
            }
            return Some(block);
        }
        proof {
            assert(self.free_blocks() =~= before);
        }
        let actual_size = self.block_sizes[pool_index];
        let data = vec![0u8; actual_size];
        self.total_allocated = self.total_allocated.wrapping_add(actual_size as u64);
        let block = MemoryBlock { data, size: actual_size, allocated_at: instant_now() };
        proof {
            assert(block.data@ =~= Seq::new(block.size as nat, |k: int| 0u8));
        }
        Some(block)
    }

    /// Takes back a block: it joins the pooled blocks of the first class that
    /// holds its size when that class has room, else its memory is released
    /// and its size is taken off the allocated bytes.
    pub fn deallocate(&mut self, block: MemoryBlock)
        requires
            old(self).wf(),
        ensures
            Self::release(*old(self), block, *final(self)),
            Self::release_keeps_shape(*old(self), block) ==> final(self).wf(),
    {
        let pool_index = self.find_pool_index(block.size);
        proof {
            lemma_first_fit(self.block_sizes@, block.size, 0);
        }
        let ghost before = self.free_blocks();
        let ghost b = block;
        if pool_index < self.pools.len() && self.pools[pool_index].len() < self.max_blocks_per_pool {
            self.pools[pool_index].push_back(block);
            proof {
                assert(self.free_blocks() =~= before.update(
                    pool_index as int,
                    before[pool_index as int].push(b),
                ));
                if b.size == self.class_sizes()[pool_index as int] {
                    assert forall|i: int, j: int|
                        0 <= i < SIZE_CLASSES && 0 <= j < self.free_blocks()[i].len() implies (
                    #[trigger] self.free_blocks()[i][j]).size == self.class_sizes()[i] by {
                        if i == pool_index && j < before[i].len() {
                            assert(self.free_blocks()[i][j] == before[i][j]);
                        }
                    }
                }
            }
        } else {
            let size = block.size;
            self.total_allocated = self.total_allocated.wrapping_sub(size as u64);
            proof {
                assert(self.free_blocks() =~= before);
            }
        }
    }
}

/// Limits on the resources of one execution context.
#[derive(Clone, Debug)]
pub struct ObjectLimits {
    /// The largest single allocation, in bytes.
    pub max_memory: usize,
    /// The largest number of live objects.
    pub max_objects: usize,
    /// The longest execution time, in nanoseconds.
    pub max_execution_time: u128,
}

impl Default for ObjectLimits {
    /// 16 MiB of memory, 10000 objects and 30 seconds of execution time.
    fn default() -> (limits: Self)
        ensures
            limits.max_memory == 16 * 1024 * 1024,
            limits.max_objects == 10000,
            limits.max_execution_time == 30_000_000_000,
    {
        ObjectLimits {
            max_memory: 16 * 1024 * 1024,
            max_objects: 10000,
            max_execution_time: 30_000_000_000,
        }
    }
}

/// A memory usage ratio, `numerator / denominator`, at or above which a
/// collection is due.
#[derive(Clone, Copy, Debug)]
pub struct UsageThreshold {
    pub numerator: u64,
    pub denominator: u64,
}

/// The time from `earlier` to `now`, or zero when `now` comes first
/// (`Instant::elapsed` saturates the same way).
pub open spec fn elapsed_between(earlier: u128, now: u128) -> u128 {
    if now >= earlier {
        (now - earlier) as u128
    } else {
        0
    }
}

/// Whether `used / total` reaches `threshold`, the ratio being taken exactly.
pub open spec fn usage_reaches(stats: MemoryStats, threshold: UsageThreshold) -> bool {
    stats.total > 0 && stats.used * threshold.denominator >= threshold.numerator * stats.total
}

/// The product of two 64-bit values fits in 128 bits.
proof fn lemma_u64_products_fit(a: u64, b: u64)
    ensures
        a * b <= u128::MAX,
{
    assert(a * b <= 0xffff_ffff_ffff_ffff * 0xffff_ffff_ffff_ffffint) by (nonlinear_arith)
        requires
            a <= 0xffff_ffff_ffff_ffffint,
            b <= 0xffff_ffff_ffff_ffffint,
            0 <= a,
            0 <= b,
    ;
}

/// Decides when a garbage collection is due: no collection is running, the
/// interval has passed since the last one, and memory usage has reached the
/// threshold.
pub struct GCScheduler {
    origin: Instant,
    last_gc: u128,
    gc_interval: u128,
    memory_threshold: UsageThreshold,
    is_gc_running: bool,
}

impl GCScheduler {
    /// When the last collection completed, in nanoseconds since the scheduler
    /// was created.
    pub closed spec fn last_collection(&self) -> u128 {
        self.last_gc
    }

    /// The least time between collections, in nanoseconds.
    pub closed spec fn interval(&self) -> u128 {
        self.gc_interval
    }

    /// The usage ratio at which a collection is due.
    pub closed spec fn threshold(&self) -> UsageThreshold {
        self.memory_threshold
    }

    /// Whether a collection is running.
    pub closed spec fn running(&self) -> bool {
        self.is_gc_running
    }

    /// Whether a collection is due at time `now` for the figures `stats`.
    pub open spec fn due(&self, now: u128, stats: MemoryStats) -> bool {
        &&& !self.running()
        &&& elapsed_between(self.last_collection(), now) >= self.interval()
        &&& usage_reaches(stats, self.threshold())
    }

    /// Creates a scheduler with the given interval (in nanoseconds) and usage
    /// threshold; its last collection counts as having happened at creation.
    pub fn new(interval: u128, threshold: UsageThreshold) -> (scheduler: Self)
        ensures
            scheduler.interval() == interval,
            scheduler.threshold() == threshold,
            scheduler.last_collection() == 0,
            !scheduler.running(),
    {
        GCScheduler {
            origin: instant_now(),
            last_gc: 0,
            gc_interval: interval,
            memory_threshold: threshold,
            is_gc_running: false,
        }
    }

    /// Whether a collection is due at time `now` (nanoseconds since the
    /// scheduler was created) for the figures `stats`.
    pub fn should_gc_at(&self, now: u128, stats: &MemoryStats) -> (due: bool)
        ensures
            due == self.due(now, *stats),
    {
        if self.is_gc_running {
            return false;
        }
        let time_since_gc = if now >= self.last_gc {
            now - self.last_gc
        } else {
            0
        };
        if time_since_gc < self.gc_interval {
            return false;
        }
        if stats.total > 0 {
            proof {
                lemma_u64_products_fit(stats.used, self.memory_threshold.denominator);
                lemma_u64_products_fit(self.memory_threshold.numerator, stats.total);
            }
            (stats.used as u128) * (self.memory_threshold.denominator as u128) >= (
            self.memory_threshold.numerator as u128) * (stats.total as u128)
        } else {
            false
        }
    }

    /// Whether a collection is due now for the figures `stats`: false while a
    /// collection runs, else as `should_gc_at` for the current time.
    pub fn should_gc(&self, stats: &MemoryStats) -> (due: bool)
        ensures
            exists|now: u128| due == self.due(now, *stats),
            self.running() ==> !due,
            !usage_reaches(*stats, self.threshold()) ==> !due,
    {
        if self.is_gc_running {
            proof {
                assert(due_is(self, 0, *stats, false));
            }
            return false;
        }
        let now = nanos_since(&self.origin);
        let due = self.should_gc_at(now, stats);
        proof {
            assert(due_is(self, now, *stats, due));
        }
        due
    }

    /// Marks a collection as running.
    pub fn mark_gc_start(&mut self)
        ensures
            final(self).running(),
            final(self).last_collection() == old(self).last_collection(),
            final(self).interval() == old(self).interval(),
            final(self).threshold() == old(self).threshold(),
    {
        self.is_gc_running = true;
    }

    /// Marks the running collection as complete at time `now` (nanoseconds
    /// since the scheduler was created).
    pub fn mark_gc_complete_at(&mut self, now: u128)
        ensures
            !final(self).running(),
            final(self).last_collection() == now,
            final(self).interval() == old(self).interval(),
            final(self).threshold() == old(self).threshold(),
    {
        self.is_gc_running = false;
        self.last_gc = now;
    }

    /// Marks the running collection as complete now.
    pub fn mark_gc_complete(&mut self)
        ensures
            !final(self).running(),
            final(self).interval() == old(self).interval(),
            final(self).threshold() == old(self).threshold(),
    {
        let now = nanos_since(&self.origin);
        self.mark_gc_complete_at(now);
    }
}

/// Whether `due` is the answer of `s` at time `now` for `stats`.
spec fn due_is(s: &GCScheduler, now: u128, stats: MemoryStats, due: bool) -> bool {
    due == s.due(now, stats)
}

/// While a collection runs, none is due; and right after a collection
/// completes, none is due until the interval has passed.
pub proof fn law_no_collection_while_running_or_too_soon(
    s: GCScheduler,
    now: u128,
    stats: MemoryStats,
)
    ensures
        s.running() ==> !s.due(now, stats),
        now >= s.last_collection() && now - s.last_collection() < s.interval() ==> !s.due(now, stats),
{
}

/// A live allocation that the leak detector tracks.
#[derive(Clone, Debug)]
struct AllocationInfo {
    size: usize,
    allocated_at: u128,
    backtrace: Option<Vec<String>>,
}

/// An allocation that has lived longer than the age asked about.
#[derive(Clone, Debug)]
pub struct LeakInfo {
    /// The id that `track_allocation` gave the allocation.
    pub id: usize,
    /// The size of the allocation in bytes.
    pub size: usize,
    /// Its age in nanoseconds.
    pub age: u128,
}

/// `leaks` reports, in any order and each once, exactly the allocations in
/// `live` (id to size and time of allocation) that are older than
/// `max_age` at time `now`.
pub open spec fn leak_report(
    live: Map<usize, (usize, u128)>,
    now: u128,
    max_age: u128,
    leaks: Seq<LeakInfo>,
) -> bool {
    &&& forall|k: int|
        0 <= k < leaks.len() ==> {
            let l = #[trigger] leaks[k];
            &&& live.contains_key(l.id)
            &&& l.size == live[l.id].0
            &&& l.age == elapsed_between(live[l.id].1, now)
            &&& l.age > max_age
        }
    &&& forall|id: usize|
        #[trigger] live.contains_key(id) && elapsed_between(live[id].1, now) > max_age
            ==> exists|k: int| 0 <= k < leaks.len() && (#[trigger] leaks[k]).id == id
    &&& forall|k: int, l: int| 0 <= k < l < leaks.len() ==> (#[trigger] leaks[k]).id != (
    #[trigger] leaks[l]).id
}

/// Tracks live allocations by id and reports those that have lived too long.
pub struct LeakDetector {
    origin: Instant,
    allocations: HashMap<usize, AllocationInfo>,
    next_id: u64,
}

impl LeakDetector {
    /// The live allocations: id to size and time of allocation (in
    /// nanoseconds since the detector was created).
    pub closed spec fn live(&self) -> Map<usize, (usize, u128)> {
        self.allocations@.map_values(|info: AllocationInfo| (info.size, info.allocated_at))
    }

    /// The id that the next live allocation gets (before conversion to
    /// `usize`).
    pub closed spec fn next(&self) -> u64 {
        self.next_id
    }

    /// `post` is `pre` after tracking an allocation of `size` bytes under
    /// `id`, made at some time: `id` is the next id, the next id moves on by
    /// one (wrapping), and only the entry of `id` changes.
    pub open spec fn registered(pre: Self, size: usize, post: Self, id: usize) -> bool {
        &&& id == pre.next() as usize
        &&& post.next() == vstd::wrapping::u64_specs::wrapping_add(pre.next(), 1)
        &&& post.live().dom() == pre.live().dom().insert(id)
        &&& post.live()[id].0 == size
        &&& forall|k: usize|
            k != id && #[trigger] post.live().contains_key(k) ==> post.live()[k] == pre.live()[k]
    }

    /// `post` is `pre` after it stopped tracking `id`.
    pub open spec fn unregistered(pre: Self, id: usize, post: Self) -> bool {
        &&& post.live() == pre.live().remove(id)
        &&& post.next() == pre.next()
    }

    /// Creates a detector that tracks nothing.
    pub fn new() -> (detector: Self)
        ensures
            detector.live() == Map::<usize, (usize, u128)>::empty(),
            detector.next() == 0,
    {
        let d = LeakDetector { origin: instant_now(), allocations: HashMap::new(), next_id: 0 };
        proof {
            assert(d.live() =~= Map::<usize, (usize, u128)>::empty());
        }
        d
    }

    /// Tracks an allocation of `size` bytes made at time `now` (nanoseconds
    /// since the detector was created) under the next id, and returns the id.
    pub fn track_allocation_at(&mut self, size: usize, now: u128) -> (id: usize)
        ensures
            id == old(self).next() as usize,
            final(self).next() == vstd::wrapping::u64_specs::wrapping_add(old(self).next(), 1),
            final(self).live() == old(self).live().insert(id, (size, now)),
    {
        let id = self.next_id as usize;
        self.next_id = self.next_id.wrapping_add(1);
        let info = AllocationInfo { size, allocated_at: now, backtrace: None };
        self.allocations.insert(id, info);
        proof {
            assert(self.live() =~= old(self).live().insert(id, (size, now)));
        }
        id
    }

    /// Tracks an allocation of `size` bytes made now under the next id, and
    /// returns the id.
    pub fn track_allocation(&mut self, size: usize) -> (id: usize)
        ensures
            Self::registered(*old(self), size, *final(self), id),
    {
        let now = nanos_since(&self.origin);
        self.track_allocation_at(size, now)
    }

    /// Stops tracking the allocation with id `id`.
    pub fn track_deallocation(&mut self, id: usize)
        ensures
            Self::unregistered(*old(self), id, *final(self)),
    {
        self.allocations.remove(&id);
        proof {
            assert(self.live() =~= old(self).live().remove(id));
        }
    }

    /// The live allocations older than `max_age` at time `now`, both in
    /// nanoseconds.
    pub fn leaks_at(&self, now: u128, max_age: u128) -> (leaks: Vec<LeakInfo>)
        ensures
            leak_report(self.live(), now, max_age, leaks@),
    {
        let mut leaks: Vec<LeakInfo> = Vec::new();
        let ghost live = self.live();
        for entry in it: self.allocations.iter()
            invariant
                live == self.live(),
                it.seq().no_duplicates(),
                forall|j: int|
                    0 <= j < it.seq().len() ==> #[trigger] self.allocations@.contains_key(*it.seq()[j].0)
                        && self.allocations@[*it.seq()[j].0] == *it.seq()[j].1,
                forall|id: usize|
                    #[trigger] self.allocations@.contains_key(id) ==> exists|j: int|
                        0 <= j < it.seq().len() && *(#[trigger] it.seq()[j]).0 == id,
                forall|k: int|
                    0 <= k < leaks@.len() ==> {
                        let l = #[trigger] leaks@[k];
                        &&& live.contains_key(l.id)
                        &&& l.size == live[l.id].0
                        &&& l.age == elapsed_between(live[l.id].1, now)
                        &&& l.age > max_age
                        &&& exists|j: int| 0 <= j < it.index() && *(#[trigger] it.seq()[j]).0 == l.id
                    },
                forall|j: int|
                    0 <= j < it.index() && elapsed_between((#[trigger] it.seq()[j]).1.allocated_at, now)
                        > max_age ==> exists|k: int| 0 <= k < leaks@.len() && (#[trigger] leaks@[k]).id
                        == *it.seq()[j].0,
                forall|k: int, l: int| 0 <= k < l < leaks@.len() ==> (#[trigger] leaks@[k]).id != (
                #[trigger] leaks@[l]).id,
        {
            let ghost j0 = it.index();
            assert(entry == it.seq()[j0]);
            let (id, info) = entry;
            let age = if now >= info.allocated_at {
                now - info.allocated_at
            } else {
                0
            };
            let ghost before = leaks@;
            if age > max_age {
                leaks.push(LeakInfo { id: *id, size: info.size, age });
            }
            proof {
                assert forall|j: int|
                    0 <= j < j0 + 1 && elapsed_between((#[trigger] it.seq()[j]).1.allocated_at, now)
                        > max_age implies exists|k: int|
                    0 <= k < leaks@.len() && (#[trigger] leaks@[k]).id == *it.seq()[j].0 by {
                    if j == j0 {
                        assert(leaks@[leaks@.len() - 1].id == *it.seq()[j].0);
                    } else {
                        let k = choose|k: int| 0 <= k < before.len() && (#[trigger] before[k]).id == *it.seq()[j].0;
                        assert(leaks@[k] == before[k]);
                    }
                }
            }
        }
        leaks
    }

    /// The live allocations older than `max_age` (nanoseconds) now.
    pub fn detect_leaks(&self, max_age: u128) -> (leaks: Vec<LeakInfo>)
        ensures
            exists|now: u128| leak_report(self.live(), now, max_age, leaks@),
    {
        let now = nanos_since(&self.origin);
        self.leaks_at(now, max_age)
    }
}

/// The number of tracking steps among `is_track`.
pub open spec fn count_tracks(is_track: Seq<bool>) -> nat
    decreases is_track.len(),
{
    if is_track.len() == 0 {
        0
    } else {
        count_tracks(is_track.drop_last()) + if is_track.last() {
            1nat
        } else {
            0nat
        }
    }
}

/// Counting tracking steps over a longer prefix never gives less.
proof fn lemma_count_tracks_grows(is_track: Seq<bool>, i: int, j: int)
    requires
        0 <= i <= j <= is_track.len(),
    ensures
        count_tracks(is_track.take(i)) <= count_tracks(is_track.take(j)),
    decreases j - i,
{
    if i < j {
        lemma_count_tracks_grows(is_track, i, j - 1);
        assert(is_track.take(j).drop_last() == is_track.take(j - 1));
    }
}

/// Tracking ids count up from zero and are never reused: in a history of a
/// detector made by `new`, where step `i` tracks an allocation of
/// `sizes[i]` (`is_track[i]`) or stops tracking `ids[i]`, the `k`-th tracked
/// allocation gets id `k`, whatever was released in between, so no two
/// tracked allocations share an id (for at most `usize::MAX` of them).
pub proof fn law_tracking_ids_count_up(
    ds: Seq<LeakDetector>,
    is_track: Seq<bool>,
    sizes: Seq<usize>,
    ids: Seq<usize>,
)
    requires
        ds.len() == is_track.len() + 1,
        sizes.len() == is_track.len(),
        ids.len() == is_track.len(),
        ds[0].next() == 0,
        count_tracks(is_track) <= usize::MAX,
        forall|i: int|
            0 <= i < is_track.len() && is_track[i] ==> LeakDetector::registered(
                #[trigger] ds[i],
                sizes[i],
                ds[i + 1],
                ids[i],
            ),
        forall|i: int|
            0 <= i < is_track.len() && !is_track[i] ==> LeakDetector::unregistered(
                #[trigger] ds[i],
                ids[i],
                ds[i + 1],
            ),
    ensures
        ds.last().next() == count_tracks(is_track),
        forall|i: int|
            0 <= i < is_track.len() && is_track[i] ==> #[trigger] ids[i] == count_tracks(is_track.take(i)),
        forall|i: int, j: int|
            0 <= i < j < is_track.len() && is_track[i] && is_track[j] ==> #[trigger] ids[i] != #[trigger] ids[j],
    decreases is_track.len(),
{
    let n = is_track.len();
    if n > 0 {
        let m = n - 1;
        let ps = is_track.drop_last();
        assert(ps.take(m) == ps);
        assert(is_track.take(m) == ps);
        assert(count_tracks(ps) <= count_tracks(is_track));
        law_tracking_ids_count_up(ds.drop_last(), ps, sizes.drop_last(), ids.drop_last());
        assert(ds.drop_last().last() == ds[m]);
        assert forall|i: int|
            0 <= i < n && is_track[i] implies #[trigger] ids[i] == count_tracks(is_track.take(i)) by {
            if i < m {
                assert(ids.drop_last()[i] == ids[i]);
                assert(ps.take(i) == is_track.take(i));
            }
        }
        assert forall|i: int, j: int|
            0 <= i < j < n && is_track[i] && is_track[j] implies #[trigger] ids[i] != #[trigger] ids[j] by {
            lemma_count_tracks_grows(is_track, i + 1, j);
            assert(is_track.take(i + 1).drop_last() == is_track.take(i));
        }
    } else {
        assert(ds.last() == ds[0]);
    }
}

/// An error of the resource manager.
#[derive(Clone, Debug, PartialEq, Eq)]
pub enum ResourceError {
    /// A single request exceeded the memory limit; it holds the requested
    /// size.
    MemoryLimitExceeded(usize),
    /// No size class holds the requested size.
    OutOfMemory,
    /// The resource is unknown.
    NotFound,
    /// A resource limit was reached.
    LimitExceeded,
}

/// The base size of the pool of a [`ResourceManager`].
pub const MANAGER_BASE_SIZE: usize = 1024;

/// How many freed blocks each class of a [`ResourceManager`]'s pool keeps.
pub const MANAGER_BLOCKS_PER_CLASS: usize = 100;

/// Whether `size` is the size of a class of a [`ResourceManager`]'s pool.
pub open spec fn is_manager_class_size(size: usize) -> bool {
    exists|k: int| 0 <= k < SIZE_CLASSES && size == MANAGER_BASE_SIZE * #[trigger] pow2(k as nat)
}

/// A block handed out by a [`ResourceManager`]; give it back with
/// [`ResourceManager::release`].
#[derive(Debug)]
pub struct MemoryHandle {
    id: usize,
    block: MemoryBlock,
}

impl MemoryHandle {
    /// The leak detector's id for this allocation.
    pub closed spec fn tracking_id(&self) -> usize {
        self.id
    }

    /// The block this handle holds.
    pub closed spec fn held_block(&self) -> MemoryBlock {
        self.block
    }

    #[verifier::type_invariant]
    spec fn holds_manager_block(&self) -> bool {
        is_manager_class_size(self.block.size)
    }

    /// The bytes of the block.
    pub fn ptr(&self) -> (bytes: &[u8])
        ensures
            bytes@ == self.held_block().data@,
    {
        self.block.data.as_slice()
    }

    /// The size of the block in bytes.
    pub fn size(&self) -> (size: usize)
        ensures
            size == self.held_block().size,
    {
        self.block.size
    }
}

/// Hands out pooled memory within limits, tracks live allocations and
/// schedules garbage collection.
pub struct ResourceManager {
    memory_pool: MemoryPool,
    resource_limits: ObjectLimits,
    gc_scheduler: GCScheduler,
    leak_detector: LeakDetector,
}

impl ResourceManager {
    /// The memory pool.
    pub closed spec fn pool(&self) -> MemoryPool {
        self.memory_pool
    }

    /// The limits in force.
    pub closed spec fn limits(&self) -> ObjectLimits {
        self.resource_limits
    }

    /// The garbage collection scheduler.
    pub closed spec fn scheduler(&self) -> GCScheduler {
        self.gc_scheduler
    }

    /// The leak detector.
    pub closed spec fn detector(&self) -> LeakDetector {
        self.leak_detector
    }

    /// The figures that `memory_stats` reports.
    pub open spec fn current_stats(&self) -> MemoryStats {
        MemoryStats {
            total: (MANAGER_BASE_SIZE * 255) as u64,
            used: self.pool().allocated_bytes(),
            peak: self.pool().allocated_bytes(),
        }
    }

    /// The manager's invariant: its pool has the manager's shape.
    pub closed spec fn wf(&self) -> bool {
        &&& self.memory_pool.wf()
        &&& self.memory_pool.class_sizes()[0] == MANAGER_BASE_SIZE
    }

    /// Creates a manager with a pool of base size 1024 keeping 100 freed
    /// blocks per class, the default limits, and a scheduler that asks for a
    /// collection every 5 seconds at 80% memory usage.
    pub fn new() -> (manager: Self)
        ensures
            manager.wf(),
            manager.pool().wf(),
            manager.pool().class_sizes()[0] == MANAGER_BASE_SIZE,
            manager.pool().blocks_per_class() == MANAGER_BLOCKS_PER_CLASS,
            manager.pool().allocated_bytes() == 0,
            forall|i: int| 0 <= i < SIZE_CLASSES ==> #[trigger] manager.pool().free_blocks()[i].len() == 0,
            manager.limits().max_memory == 16 * 1024 * 1024,
            manager.limits().max_objects == 10000,
            manager.limits().max_execution_time == 30_000_000_000,
            manager.scheduler().interval() == 5_000_000_000,
            manager.scheduler().threshold() == (UsageThreshold { numerator: 4, denominator: 5 }),
            !manager.scheduler().running(),
            manager.detector().live() == Map::<usize, (usize, u128)>::empty(),
            manager.detector().next() == 0,
    {
        let memory_pool = MemoryPool::new(MANAGER_BASE_SIZE, MANAGER_BLOCKS_PER_CLASS);
        let gc_scheduler = GCScheduler::new(
            5_000_000_000,
            UsageThreshold { numerator: 4, denominator: 5 },
        );
        ResourceManager {
            memory_pool,
            resource_limits: ObjectLimits::default(),
            gc_scheduler,
            leak_detector: LeakDetector::new(),
        }
    }

    /// Hands out a block for `size` bytes: refused with `MemoryLimitExceeded`
    /// above the memory limit, with `OutOfMemory` when no class holds the
    /// size; else the pool's block, tracked by the leak detector.
    pub fn allocate(&mut self, size: usize) -> (result: Result<MemoryHandle, ResourceError>)
        requires
            old(self).wf(),
        ensures
            final(self).wf(),
            final(self).limits() == old(self).limits(),
            final(self).scheduler() == old(self).scheduler(),
            size > old(self).limits().max_memory ==> {
                &&& result == Err::<MemoryHandle, ResourceError>(ResourceError::MemoryLimitExceeded(size))
                &&& final(self).pool() == old(self).pool()
                &&& final(self).detector() == old(self).detector()
            },
            size <= old(self).limits().max_memory && first_fit(old(self).pool().class_sizes(), size)
                >= SIZE_CLASSES ==> {
                &&& result == Err::<MemoryHandle, ResourceError>(ResourceError::OutOfMemory)
                &&& final(self).pool().free_blocks() == old(self).pool().free_blocks()
                &&& final(self).pool().allocated_bytes() == old(self).pool().allocated_bytes()
                &&& final(self).detector() == old(self).detector()
            },
            size <= old(self).limits().max_memory && first_fit(old(self).pool().class_sizes(), size)
                < SIZE_CLASSES ==> (result matches Ok(h) && {
                &&& MemoryPool::allocation(old(self).pool(), size, final(self).pool(), Some(h.held_block()))
                &&& LeakDetector::registered(old(self).detector(), size, final(self).detector(), h.tracking_id())
            }),
    {
        if size > self.resource_limits.max_memory {
            return Err(ResourceError::MemoryLimitExceeded(size));
        }
        let allocated = self.memory_pool.allocate(size);
        match allocated {
            Some(block) => {
                proof {
                    lemma_first_fit(old(self).pool().class_sizes(), size, 0);
                    lemma_manager_class(old(self).pool(), first_fit(old(self).pool().class_sizes(), size));
                    let idx = first_fit(old(self).pool().class_sizes(), size);
                    if old(self).pool().free_blocks()[idx].len() > 0 {
                        assert(old(self).pool().free_blocks()[idx][0].size == old(self).pool().class_sizes()[idx]);
                    }
                }
                let id = self.leak_detector.track_allocation(size);
                Ok(MemoryHandle { id, block })
            },
            None => Err(ResourceError::OutOfMemory),
        }
    }

    /// Gives a handle's block back: the leak detector stops tracking it and
    /// the pool takes the block back.
    pub fn release(&mut self, handle: MemoryHandle)
        requires
            old(self).wf(),
        ensures
            final(self).wf(),
            final(self).limits() == old(self).limits(),
            final(self).scheduler() == old(self).scheduler(),
            LeakDetector::unregistered(old(self).detector(), handle.tracking_id(), final(self).detector()),
            MemoryPool::release(old(self).pool(), handle.held_block(), final(self).pool()),
    {
        proof {
            use_type_invariant(&handle);
        }
        let MemoryHandle { id, block } = handle;
        self.leak_detector.track_deallocation(id);
        proof {
            lemma_manager_block_fits(self.memory_pool, block.size);
        }
        self.memory_pool.deallocate(block);
    }

    /// Replaces the limits.
    pub fn set_limits(&mut self, limits: ObjectLimits)
        requires
            old(self).wf(),
        ensures
            final(self).wf(),
            final(self).limits() == limits,
            final(self).pool() == old(self).pool(),
            final(self).scheduler() == old(self).scheduler(),
            final(self).detector() == old(self).detector(),
    {
        self.resource_limits = limits;
    }

    /// The pool's capacity figures.
    pub fn memory_stats(&self) -> (stats: MemoryStats)
        requires
            self.wf(),
        ensures
            stats.total == sum_sizes(self.pool().class_sizes()),
            stats.total == MANAGER_BASE_SIZE * 255,
            stats.used == self.pool().allocated_bytes(),
            stats.peak == self.pool().allocated_bytes(),
    {
        proof {
            law_pool_capacity(self.memory_pool);
        }
        self.memory_pool.stats()
    }

    /// Whether a garbage collection is due now.
    pub fn should_gc(&self) -> (due: bool)
        requires
            self.wf(),
        ensures
            exists|now: u128| due == #[trigger] self.scheduler().due(now, self.current_stats()),
            self.scheduler().running() ==> !due,
    {
        let stats = self.memory_stats();
        let due = self.gc_scheduler.should_gc(&stats);
        proof {
            assert(stats == self.current_stats());
            let now = choose|now: u128| due == #[trigger] self.gc_scheduler.due(now, stats);
            assert(due == self.scheduler().due(now, self.current_stats()));
        }
        due
    }

    /// Runs a collection: marks it started and then complete.
    pub fn trigger_gc(&mut self)
        requires
            old(self).wf(),
        ensures
            final(self).wf(),
            !final(self).scheduler().running(),
            final(self).scheduler().interval() == old(self).scheduler().interval(),
            final(self).scheduler().threshold() == old(self).scheduler().threshold(),
            final(self).pool() == old(self).pool(),
            final(self).detector() == old(self).detector(),
            final(self).limits() == old(self).limits(),
    {
        self.gc_scheduler.mark_gc_start();
        self.gc_scheduler.mark_gc_complete();
    }

    /// The live allocations older than `max_age` nanoseconds.
    pub fn detect_leaks(&self, max_age: u128) -> (leaks: Vec<LeakInfo>)
        ensures
            exists|now: u128| leak_report(self.detector().live(), now, max_age, leaks@),
    {
        let leaks = self.leak_detector.detect_leaks(max_age);
        proof {
            let now = choose|now: u128| leak_report(self.leak_detector.live(), now, max_age, leaks@);
            assert(leak_report(self.detector().live(), now, max_age, leaks@));
        }
        leaks
    }
}

/// In a pool of the manager's shape, class `k` has the `k`-th manager class
/// size.
proof fn lemma_manager_class(pool: MemoryPool, k: int)
    requires
        pool.wf(),
        pool.class_sizes()[0] == MANAGER_BASE_SIZE,
        0 <= k < SIZE_CLASSES,
    ensures
        is_manager_class_size(pool.class_sizes()[k]),
{
    assert(pool.class_sizes()[k] == MANAGER_BASE_SIZE * pow2(k as nat));
}

/// A block of a manager class size fits its class exactly.
proof fn lemma_manager_block_fits(pool: MemoryPool, size: usize)
    requires
        pool.wf(),
        pool.class_sizes()[0] == MANAGER_BASE_SIZE,
        is_manager_class_size(size),
    ensures
        first_fit(pool.class_sizes(), size) < SIZE_CLASSES,
        pool.class_sizes()[first_fit(pool.class_sizes(), size)] == size,
{
    let k = choose|k: int| 0 <= k < SIZE_CLASSES && size == MANAGER_BASE_SIZE * #[trigger] pow2(k as nat);
    lemma_first_fit(pool.class_sizes(), size, 0);
    let idx = first_fit(pool.class_sizes(), size);
    assert(pool.class_sizes()[k] == size);
    assert(idx <= k);
    if idx < k {
        lemma2_to64();
        vstd::arithmetic::power2::lemma_pow2_strictly_increases(idx as nat, k as nat);
        let a = pow2(idx as nat) as int;
        let b = pow2(k as nat) as int;
        assert(MANAGER_BASE_SIZE * a < MANAGER_BASE_SIZE * b) by (nonlinear_arith)
            requires
                a < b,
        ;
        assert(pool.class_sizes()[idx] == MANAGER_BASE_SIZE * a);
        assert(false);
    }
}

/// Tracking an allocation under an id that was not live and then releasing
/// that id leaves the live allocations as they were.
pub proof fn law_track_then_release(d0: LeakDetector, size: usize, d1: LeakDetector, id: usize, d2: LeakDetector)
    requires
        LeakDetector::registered(d0, size, d1, id),
        LeakDetector::unregistered(d1, id, d2),
        !d0.live().contains_key(id),
    ensures
        d2.live() == d0.live(),
{
    assert(d2.live() =~= d0.live());
}

/// The manager refuses a request within its memory limit exactly when it
/// exceeds the largest class, `128 * 1024` bytes.
pub proof fn law_manager_out_of_memory(m: ResourceManager, size: usize)
    requires
        m.wf(),
    ensures
        first_fit(m.pool().class_sizes(), size) >= SIZE_CLASSES <==> size > MANAGER_BASE_SIZE * 128,
{
    lemma_first_fit(m.pool().class_sizes(), size, 0);
    lemma2_to64();
    let idx = first_fit(m.pool().class_sizes(), size);
    assert(m.pool().class_sizes()[7] == MANAGER_BASE_SIZE * pow2(7));
    if idx < SIZE_CLASSES {
        lemma_class_sizes_grow(m.pool(), idx, SIZE_CLASSES - 1);
    }
}

/// Class sizes of a well-formed pool grow with the class index.
proof fn lemma_class_sizes_grow(pool: MemoryPool, i: int, j: int)
    requires
        pool.wf(),
        0 <= i <= j < SIZE_CLASSES,
    ensures
        pool.class_sizes()[i] <= pool.class_sizes()[j],
{
    lemma2_to64();
    let base = pool.class_sizes()[0] as int;
    let pi = pow2(i as nat) as int;
    let pj = pow2(j as nat) as int;
    assert(pool.class_sizes()[i] == base * pi);
    assert(pool.class_sizes()[j] == base * pj);
    if i < j {
        vstd::arithmetic::power2::lemma_pow2_strictly_increases(i as nat, j as nat);
    }
    assert(base * pi <= base * pj) by (nonlinear_arith)
        requires
            0 <= base,
            pi <= pj,
    ;
}

/// A block handed out by `allocate` holds the requested bytes, and no class
/// that holds them is smaller than the block.
pub proof fn law_allocation_fits(pre: MemoryPool, size: usize, post: MemoryPool, block: Option<MemoryBlock>)
    requires
        pre.wf(),
        MemoryPool::allocation(pre, size, post, block),
        block is Some,
    ensures
        size <= block.unwrap().size,
        forall|i: int|
            0 <= i < SIZE_CLASSES && size <= #[trigger] pre.class_sizes()[i] ==> block.unwrap().size
                <= pre.class_sizes()[i],
{
    lemma_first_fit(pre.class_sizes(), size, 0);
    let idx = first_fit(pre.class_sizes(), size);
    if pre.free_blocks()[idx].len() > 0 {
        assert(pre.free_blocks()[idx][0].size == pre.class_sizes()[idx]);
    }
    assert forall|i: int|
        0 <= i < SIZE_CLASSES && size <= #[trigger] pre.class_sizes()[i] implies block.unwrap().size
            <= pre.class_sizes()[i] by {
        lemma_class_sizes_grow(pre, idx, i);
    }
}

/// `allocate` gives nothing exactly when the request exceeds the largest
/// class.
pub proof fn law_allocation_refused(pre: MemoryPool, size: usize, post: MemoryPool, block: Option<MemoryBlock>)
    requires
        pre.wf(),
        MemoryPool::allocation(pre, size, post, block),
    ensures
        block is None <==> size > pre.class_sizes()[SIZE_CLASSES - 1],
{
    lemma_first_fit(pre.class_sizes(), size, 0);
    let idx = first_fit(pre.class_sizes(), size);
    if idx < SIZE_CLASSES {
        lemma_class_sizes_grow(pre, idx, SIZE_CLASSES - 1);
    }
}

/// A block given back to a class with room is handed out again by the next
/// request of its size, and the allocated bytes stay as they were; when the
/// class held no other block, the very same block comes back and the pooled
/// blocks are as before.
pub proof fn law_released_block_is_reused(
    p0: MemoryPool,
    b: MemoryBlock,
    p1: MemoryPool,
    p2: MemoryPool,
    r: Option<MemoryBlock>,
)
    requires
        p0.wf(),
        MemoryPool::keeps_on_release(p0, b),
        b.size == p0.class_sizes()[first_fit(p0.class_sizes(), b.size)],
        MemoryPool::release(p0, b, p1),
        MemoryPool::allocation(p1, b.size, p2, r),
    ensures
        r is Some,
        r.unwrap().size == b.size,
        p2.allocated_bytes() == p0.allocated_bytes(),
        p0.free_blocks()[first_fit(p0.class_sizes(), b.size)].len() == 0 ==> r == Some(b)
            && p2.free_blocks() == p0.free_blocks(),
{
    lemma_first_fit(p0.class_sizes(), b.size, 0);
    let idx = first_fit(p0.class_sizes(), b.size);
    assert(p1.free_blocks()[idx] == p0.free_blocks()[idx].push(b));
    if p0.free_blocks()[idx].len() > 0 {
        assert(p1.free_blocks()[idx][0] == p0.free_blocks()[idx][0]);
        assert(p0.free_blocks()[idx][0].size == p0.class_sizes()[idx]);
    } else {
        assert(p1.free_blocks()[idx][0] == b);
        assert(p1.free_blocks()[idx].drop_first() =~= p0.free_blocks()[idx]);
        assert(p2.free_blocks() =~= p0.free_blocks());
    }
}

/// A new block that is released to the system leaves the pool as it was
/// before the block was allocated.
pub proof fn law_new_block_released(
    p0: MemoryPool,
    size: usize,
    p1: MemoryPool,
    b: MemoryBlock,
    p2: MemoryPool,
)
    requires
        p0.wf(),
        first_fit(p0.class_sizes(), size) < SIZE_CLASSES,
        p0.free_blocks()[first_fit(p0.class_sizes(), size)].len() == 0,
        MemoryPool::allocation(p0, size, p1, Some(b)),
        !MemoryPool::keeps_on_release(p1, b),
        MemoryPool::release(p1, b, p2),
    ensures
        p2.allocated_bytes() == p0.allocated_bytes(),
        p2.free_blocks() == p0.free_blocks(),
{
}

/// The class of a pool that serves requests of `size` bytes.
pub open spec fn class_index(pool: MemoryPool, size: usize) -> int {
    first_fit(pool.class_sizes(), size)
}

/// Pooled blocks come out in the order they went in: a run of requests of
/// one class size, no longer than the blocks pooled in that class, hands
/// out the pooled blocks oldest first, takes each off the front of the
/// class's queue, and takes nothing new from the system. (`release` puts a
/// kept block at the back of its class's queue.)
#[verifier::spinoff_prover]
#[verifier::rlimit(40)]
pub proof fn law_pool_first_in_first_out(
    pools: Seq<MemoryPool>,
    size: usize,
    blocks: Seq<Option<MemoryBlock>>,
)
    requires
        pools.len() == blocks.len() + 1,
        pools[0].wf(),
        class_index(pools[0], size) < SIZE_CLASSES,
        blocks.len() <= pools[0].free_blocks()[class_index(pools[0], size)].len(),
        forall|i: int|
            0 <= i < blocks.len() ==> MemoryPool::allocation(
                #[trigger] pools[i],
                size,
                pools[i + 1],
                blocks[i],
            ),
    ensures
        forall|i: int|
            0 <= i < blocks.len() ==> #[trigger] blocks[i] == Some(
                pools[0].free_blocks()[class_index(pools[0], size)][i],
            ),
        pools.last().class_sizes() == pools[0].class_sizes(),
        pools.last().free_blocks().len() == SIZE_CLASSES,
        pools.last().free_blocks()[class_index(pools[0], size)] == pools[0].free_blocks()[class_index(
            pools[0],
            size,
        )].skip(blocks.len() as int),
        pools.last().allocated_bytes() == pools[0].allocated_bytes(),
    decreases blocks.len(),
{
    let idx = class_index(pools[0], size);
    let q = pools[0].free_blocks()[idx];
    lemma_first_fit(pools[0].class_sizes(), size, 0);
    if blocks.len() > 0 {
        let n = blocks.len() - 1;
        let ps = pools.drop_last();
        let bs = blocks.drop_last();
        assert(ps[0] == pools[0]);
        assert forall|i: int| 0 <= i < bs.len() implies MemoryPool::allocation(
            #[trigger] ps[i],
            size,
            ps[i + 1],
            bs[i],
        ) by {
            assert(ps[i] == pools[i] && ps[i + 1] == pools[i + 1] && bs[i] == blocks[i]);
        }
        law_pool_first_in_first_out(ps, size, bs);
        assert(ps.last() == pools[n]);
        lemma_fifo_step(pools[n], size, pools[n + 1], blocks[n], q, n);
        assert(pools.last() == pools[n + 1]);
        assert forall|i: int| 0 <= i < blocks.len() implies #[trigger] blocks[i] == Some(q[i]) by {
            if i < n {
                assert(bs[i] == blocks[i]);
            }
        }
    } else {
        assert(pools.last() == pools[0]);
        assert(q.skip(0) == q);
    }
}

/// One allocation from a class whose queue is what is left of `q` after `n`
/// allocations hands out `q[n]`.
proof fn lemma_fifo_step(
    pre: MemoryPool,
    size: usize,
    post: MemoryPool,
    block: Option<MemoryBlock>,
    q: Seq<MemoryBlock>,
    n: int,
)
    requires
        0 <= first_fit(pre.class_sizes(), size) < SIZE_CLASSES,
        pre.free_blocks().len() == SIZE_CLASSES,
        0 <= n < q.len(),
        pre.free_blocks()[first_fit(pre.class_sizes(), size)] == q.skip(n),
        MemoryPool::allocation(pre, size, post, block),
    ensures
        block == Some(q[n]),
        post.class_sizes() == pre.class_sizes(),
        post.free_blocks().len() == SIZE_CLASSES,
        post.free_blocks()[first_fit(pre.class_sizes(), size)] == q.skip(n + 1),
        post.allocated_bytes() == pre.allocated_bytes(),
{
    let idx = first_fit(pre.class_sizes(), size);
    assert(pre.free_blocks()[idx].len() > 0);
    assert(q.skip(n).drop_first() == q.skip(n + 1));
}

/// A block released into a class that has room comes out again after the
/// blocks that class already held, and not before.
pub proof fn law_released_block_waits_its_turn(
    p0: MemoryPool,
    b: MemoryBlock,
    pools: Seq<MemoryPool>,
    blocks: Seq<Option<MemoryBlock>>,
)
    requires
        p0.wf(),
        MemoryPool::release_keeps_shape(p0, b),
        MemoryPool::keeps_on_release(p0, b),
        MemoryPool::release(p0, b, pools[0]),
        pools.len() == blocks.len() + 1,
        blocks.len() == p0.free_blocks()[class_index(p0, b.size)].len() + 1,
        forall|i: int|
            0 <= i < blocks.len() ==> MemoryPool::allocation(
                #[trigger] pools[i],
                b.size,
                pools[i + 1],
                blocks[i],
            ),
    ensures
        forall|i: int|
            0 <= i < blocks.len() - 1 ==> #[trigger] blocks[i] == Some(
                p0.free_blocks()[class_index(p0, b.size)][i],
            ),
        blocks.last() == Some(b),
{
    let idx = class_index(p0, b.size);
    lemma_first_fit(p0.class_sizes(), b.size, 0);
    assert(p0.free_blocks().len() == SIZE_CLASSES);
    assert(pools[0].free_blocks()[idx] == p0.free_blocks()[idx].push(b));
    assert(class_index(pools[0], b.size) == idx);
    assert(pools[0].wf()) by {
        assert forall|i: int, j: int|
            0 <= i < SIZE_CLASSES && 0 <= j < pools[0].free_blocks()[i].len() implies (
        #[trigger] pools[0].free_blocks()[i][j]).size == pools[0].class_sizes()[i] by {
            if i == idx && j < p0.free_blocks()[idx].len() {
                assert(pools[0].free_blocks()[i][j] == p0.free_blocks()[i][j]);
            }
        }
        assert forall|i: int| 0 <= i < SIZE_CLASSES implies #[trigger] pools[0].free_blocks()[i].len()
            <= pools[0].blocks_per_class() by {
        }
    }
    law_pool_first_in_first_out(pools, b.size, blocks);
    assert(blocks[blocks.len() - 1] == blocks.last());
}

/// The sum of the sizes of the blocks in `q`.
pub open spec fn queue_bytes(q: Seq<MemoryBlock>) -> int
    decreases q.len(),
{
    if q.len() == 0 {
        0
    } else {
        queue_bytes(q.drop_last()) + q.last().size
    }
}

/// The sum of the sizes of all pooled blocks.
pub open spec fn pooled_bytes(classes: Seq<Seq<MemoryBlock>>) -> int
    decreases classes.len(),
{
    if classes.len() == 0 {
        0
    } else {
        pooled_bytes(classes.drop_last()) + queue_bytes(classes.last())
    }
}

/// The bytes of a queue are those of its front block and of the rest.
proof fn lemma_queue_bytes_front(q: Seq<MemoryBlock>)
    requires
        q.len() > 0,
    ensures
        queue_bytes(q) == q[0].size + queue_bytes(q.drop_first()),
    decreases q.len(),
{
    if q.len() > 1 {
        let d = q.drop_first();
        lemma_queue_bytes_front(q.drop_last());
        assert(q.drop_last().drop_first() == d.drop_last());
        assert(d.last() == q.last());
        assert(q.drop_last()[0] == q[0]);
        assert(queue_bytes(d) == queue_bytes(d.drop_last()) + d.last().size);
        assert(queue_bytes(q) == queue_bytes(q.drop_last()) + q.last().size);
        assert(queue_bytes(q.drop_last()) == q[0].size + queue_bytes(d.drop_last()));
    } else {
        assert(q.drop_first().len() == 0);
        assert(q.drop_last().len() == 0);
        assert(q.last() == q[0]);
        assert(queue_bytes(q.drop_first()) == 0);
        assert(queue_bytes(q.drop_last()) == 0);
    }
}

/// Pooled bytes are never negative.
proof fn lemma_bytes_nonnegative(classes: Seq<Seq<MemoryBlock>>)
    ensures
        pooled_bytes(classes) >= 0,
    decreases classes.len(),
{
    if classes.len() > 0 {
        lemma_bytes_nonnegative(classes.drop_last());
        lemma_queue_nonnegative(classes.last());
    }
}

/// The bytes of a queue are never negative.
proof fn lemma_queue_nonnegative(q: Seq<MemoryBlock>)
    ensures
        queue_bytes(q) >= 0,
    decreases q.len(),
{
    if q.len() > 0 {
        lemma_queue_nonnegative(q.drop_last());
    }
}

/// Replacing the queue of one class changes the pooled bytes by the
/// difference of the two queues' bytes.
proof fn lemma_pooled_update(classes: Seq<Seq<MemoryBlock>>, i: int, q: Seq<MemoryBlock>)
    requires
        0 <= i < classes.len(),
    ensures
        pooled_bytes(classes.update(i, q)) == pooled_bytes(classes) - queue_bytes(classes[i]) + queue_bytes(q),
    decreases classes.len(),
{
    let u = classes.update(i, q);
    if i == classes.len() - 1 {
        assert(u.drop_last() == classes.drop_last());
    } else {
        lemma_pooled_update(classes.drop_last(), i, q);
        assert(u.drop_last() == classes.drop_last().update(i, q));
    }
}

/// Classes that pool no block hold no bytes.
proof fn lemma_empty_classes(classes: Seq<Seq<MemoryBlock>>)
    requires
        forall|i: int| 0 <= i < classes.len() ==> (#[trigger] classes[i]).len() == 0,
    ensures
        pooled_bytes(classes) == 0,
    decreases classes.len(),
{
    if classes.len() > 0 {
        assert(classes.last().len() == 0);
        assert forall|i: int| 0 <= i < classes.drop_last().len() implies (
        #[trigger] classes.drop_last()[i]).len() == 0 by {
            assert(classes.drop_last()[i] == classes[i]);
        }
        lemma_empty_classes(classes.drop_last());
    }
}

/// A new pool holds no bytes and pools none, so the balance of
/// `law_bytes_balance_on_allocation` holds at the start with nothing held.
pub proof fn law_bytes_balance_at_start(pool: MemoryPool)
    requires
        pool.allocated_bytes() == 0,
        forall|i: int| 0 <= i < pool.free_blocks().len() ==> #[trigger] pool.free_blocks()[i].len() == 0,
    ensures
        pool.allocated_bytes() == pooled_bytes(pool.free_blocks()) + 0,
{
    lemma_empty_classes(pool.free_blocks());
}

/// The bytes the pool counts as allocated are those of its pooled blocks
/// and of the blocks callers hold, and every allocation keeps that so: with
/// `held` bytes held by callers before, a block handed out is held after.
/// (The premise on the block's size rules out the 64-bit count wrapping.)
pub proof fn law_bytes_balance_on_allocation(
    pre: MemoryPool,
    size: usize,
    post: MemoryPool,
    block: Option<MemoryBlock>,
    held: int,
)
    requires
        pre.wf(),
        pre.allocated_bytes() == pooled_bytes(pre.free_blocks()) + held,
        MemoryPool::allocation(pre, size, post, block),
        block matches Some(b) ==> pre.allocated_bytes() + b.size <= u64::MAX,
    ensures
        post.allocated_bytes() == pooled_bytes(post.free_blocks()) + held + (match block {
            Some(b) => b.size as int,
            None => 0,
        }),
{
    let idx = first_fit(pre.class_sizes(), size);
    assert(pre.free_blocks().len() == SIZE_CLASSES);
    lemma_first_fit(pre.class_sizes(), size, 0);
    if idx < SIZE_CLASSES && pre.free_blocks()[idx].len() > 0 {
        let q = pre.free_blocks()[idx];
        lemma_queue_bytes_front(q);
        lemma_pooled_update(pre.free_blocks(), idx, q.drop_first());
    }
}

/// Every release keeps the balance of `law_bytes_balance_on_allocation`: a
/// block given back is held no more, whether it is pooled or its memory goes
/// back to the system.
pub proof fn law_bytes_balance_on_release(pre: MemoryPool, b: MemoryBlock, post: MemoryPool, held: int)
    requires
        pre.wf(),
        pre.allocated_bytes() == pooled_bytes(pre.free_blocks()) + held,
        b.size <= held,
        MemoryPool::release(pre, b, post),
    ensures
        post.allocated_bytes() == pooled_bytes(post.free_blocks()) + held - b.size,
{
    let idx = first_fit(pre.class_sizes(), b.size);
    assert(pre.free_blocks().len() == SIZE_CLASSES);
    lemma_first_fit(pre.class_sizes(), b.size, 0);
    lemma_bytes_nonnegative(pre.free_blocks());
    if MemoryPool::keeps_on_release(pre, b) {
        let q = pre.free_blocks()[idx];
        assert(q.push(b).drop_last() == q);
        lemma_pooled_update(pre.free_blocks(), idx, q.push(b));
    }
}

/// The capacity that `stats` reports is `255` times the smallest class size.
pub proof fn law_pool_capacity(pool: MemoryPool)
    requires
        pool.wf(),
    ensures
        sum_sizes(pool.class_sizes()) == pool.class_sizes()[0] * 255,
{
    lemma2_to64();
    let s = pool.class_sizes();
    let b = s[0] as int;
    assert(s.len() == 8);
    assert(s.take(8) == s);
    assert forall|k: int| 0 <= k <= 8 implies #[trigger] sum_sizes(s.take(k)) == b * (pow2(k as nat) - 1) by {
        lemma_prefix_sum(pool, k);
    }
    assert(sum_sizes(s.take(8)) == b * (pow2(8) - 1));
}

proof fn lemma_prefix_sum(pool: MemoryPool, k: int)
    requires
        pool.wf(),
        0 <= k <= 8,
    ensures
        sum_sizes(pool.class_sizes().take(k)) == pool.class_sizes()[0] * (pow2(k as nat) - 1),
    decreases k,
{
    lemma2_to64();
    let s = pool.class_sizes();
    let b = s[0] as int;
    if k > 0 {
        lemma_prefix_sum(pool, k - 1);
        assert(s.take(k).drop_last() == s.take(k - 1));
        let p = pow2((k - 1) as nat) as int;
        assert(pow2(k as nat) == 2 * p);
        assert(s[k - 1] == b * p);
        assert(b * (p - 1) + b * p == b * (2 * p - 1)) by (nonlinear_arith);
        assert(s.take(k).last() == s[k - 1]);
        assert(sum_sizes(s.take(k)) == sum_sizes(s.take(k - 1)) + s[k - 1]);
    } else {
        assert(s.take(0).len() == 0);
        assert(b * (pow2(0) - 1) == 0);
    }
}

} // verus!
