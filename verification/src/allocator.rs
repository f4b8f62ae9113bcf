//! The allocation engine: pools of blocks, allocation records, the
//! current-frame counter and the lost-allocation eviction machinery.
//!
//! Every allocation is a record; its handle is the record's index. A live
//! record owns exactly one used extent (carrying the same index as owner id)
//! in one block of one pool; a lost or freed record owns nothing. The
//! well-formedness predicate `Allocator::wf` ties the two sides together and
//! is preserved by every operation.

use vstd::prelude::*;
use crate::block::Block;
use crate::block::block_wf;
use crate::block::GUARD_MARGIN;
use crate::suballoc::Strategy;
use crate::suballoc::can_place;
use crate::suballoc::free_ext;
use crate::suballoc::free_merge;
use crate::suballoc::free_total;
use crate::suballoc::has_used;
use crate::suballoc::lemma_singleton;
use crate::suballoc::lemma_used_unique;
use crate::suballoc::picked;
use crate::suballoc::place_in;
use crate::suballoc::used_at;
use crate::suballoc::used_count;
use crate::suballoc::used_ext;
use crate::suballoc::used_total;
use crate::types::ALLOCATION_CREATE_DEDICATED_MEMORY;
use crate::types::ALLOCATION_CREATE_MAPPED;
use crate::types::MEMORY_PROPERTY_DEVICE_LOCAL;
use crate::types::MEMORY_PROPERTY_HOST_CACHED;
use crate::types::MEMORY_PROPERTY_HOST_COHERENT;
use crate::types::MEMORY_PROPERTY_HOST_VISIBLE;
use crate::types::AllocError;
use crate::types::Allocation;
use crate::types::AllocationCreateInfo;
use crate::types::AllocationInfo;
use crate::types::AllocatorCreateInfo;
use crate::types::AllocatorPool;
use crate::types::MemoryRequirements;
use crate::types::MemoryType;
use crate::types::MemoryUsage;
use crate::types::PoolCreateInfo;
use crate::types::ALLOCATION_CREATE_CAN_BECOME_LOST;
use crate::types::ALLOCATION_CREATE_CAN_MAKE_OTHER_LOST;
use crate::types::ALLOCATION_CREATE_NEVER_ALLOCATE;
use crate::types::ALLOCATION_CREATE_STRATEGY_FIRST_FIT;
use crate::types::ALLOCATION_CREATE_STRATEGY_WORST_FIT;

verus! {

/// Size of the blocks the default per-memory-type pools create.
pub const DEFAULT_BLOCK_SIZE: usize = 0x4000000;

/// Lifecycle of one allocation record. A record is `Live` while it owns a
/// region, `Lost` after eviction (or when created pre-lost) and `Freed`
/// once released for good.
#[derive(Debug, Clone, Copy, PartialEq, Eq, Structural)]
pub enum AllocState {
    Live,
    Lost,
    Freed,
}

/// Bookkeeping for one allocation. Its geometry lives in the used extent
/// that carries the record's index as owner id.
#[derive(Debug, Clone, Copy, PartialEq, Eq, Structural)]
pub struct AllocRecord {
    pub state: AllocState,
    pub pool: usize,
    pub block: usize,
    /// The allocation may be evicted once it ages past the threshold.
    pub may_lose: bool,
    /// Frame index of the last touch.
    pub last_frame: u32,
    pub user_data: usize,
    pub map_count: usize,
}

/// A policy-scoped collection of blocks of one memory type.
#[derive(Debug, Clone)]
pub struct Pool {
    pub memory_type: usize,
    pub block_size: usize,
    pub min_block_count: usize,
    pub max_block_count: usize,
    /// Guard margin its blocks are created with: 0, or `GUARD_MARGIN`.
    pub margin: usize,
    pub alive: bool,
    pub blocks: Vec<Block>,
}

impl Pool {
    /// Blocks are well-formed, live ones carry the pool's margin, and every
    /// used extent's owner id is below `bound` (the record count).
    pub open spec fn inv(&self, bound: int) -> bool {
        &&& self.block_size >= 1
        &&& forall|b: int| 0 <= b < self.blocks@.len() ==> block_wf(#[trigger] self.blocks@[b])
        &&& forall|b: int|
            0 <= b < self.blocks@.len() && (#[trigger] self.blocks@[b]).alive
                ==> self.blocks@[b].margin == self.margin
        &&& forall|b: int, k: int|
            0 <= b < self.blocks@.len() && 0 <= k < self.blocks@[b].extents@.len() && (#[trigger]
            self.blocks@[b].extents@[k]).used ==> self.blocks@[b].extents@[k].id < bound
    }
}

/// A used-extent owner found in a sequence whose owners are all below
/// `bound` is itself below `bound`.
proof fn lemma_ids_below(s: Seq<crate::suballoc::Extent>, bound: int, j: usize)
    requires
        forall|k: int| 0 <= k < s.len() && (#[trigger] s[k]).used ==> s[k].id < bound,
        has_used(s, j),
    ensures
        (j as int) < bound,
{
    let k = choose|k: int| 0 <= k < s.len() && (#[trigger] s[k]).used && s[k].id == j;
}

/// The record `r` after eviction: it keeps its identity and bookkeeping but
/// owns no memory any more.
pub open spec fn lost_of(r: AllocRecord) -> AllocRecord {
    AllocRecord { state: AllocState::Lost, ..r }
}

/// The record `r` after a successful touch at `frame`.
pub open spec fn touched(r: AllocRecord, frame: u32) -> AllocRecord {
    AllocRecord { last_frame: frame, ..r }
}

/// Whether a record is eligible for eviction: live, flagged, and not
/// touched for more than `threshold` frames.
pub open spec fn evictable_rec(r: AllocRecord, frame: u32, threshold: u32) -> bool {
    &&& r.state == AllocState::Live
    &&& r.may_lose
    &&& r.last_frame + threshold < frame
}

/// The top-level owner: memory-type table, default and user pools, the
/// allocation records and the frame counter.
#[derive(Debug, Clone)]
pub struct Allocator {
    pub heap_sizes: Vec<usize>,
    /// Bytes of each heap currently held in blocks (the model of the
    /// driver's budget).
    pub heap_used: Vec<usize>,
    pub memory_types: Vec<MemoryType>,
    /// The first `memory_types.len()` pools are the default pools, one per
    /// memory type; the rest were made by `create_pool`.
    pub pools: Vec<Pool>,
    pub records: Vec<AllocRecord>,
    pub current_frame: u32,
    /// Eviction threshold: an allocation must sit untouched for more than
    /// this many frames to become evictable.
    pub frame_in_use_count: u32,
}

impl Allocator {
    /// A live record's region: the used extent carrying the record's index,
    /// in a live block of a live pool.
    pub open spec fn linked(&self, i: int) -> bool {
        let r = self.records@[i];
        &&& r.pool < self.pools@.len()
        &&& self.pools@[r.pool as int].alive
        &&& r.block < self.pools@[r.pool as int].blocks@.len()
        &&& self.pools@[r.pool as int].blocks@[r.block as int].alive
        &&& has_used(self.pools@[r.pool as int].blocks@[r.block as int].extents@, i as usize)
    }

    /// The engine's invariant.
    pub open spec fn wf(&self) -> bool {
        &&& self.heap_used@.len() == self.heap_sizes@.len()
        &&& self.memory_types@.len() <= self.pools@.len()
        &&& forall|t: int|
            0 <= t < self.memory_types@.len() ==> (#[trigger] self.memory_types@[t]).heap_index
                < self.heap_sizes@.len()
        &&& forall|t: int|
            0 <= t < self.memory_types@.len() ==> (#[trigger] self.pools@[t]).alive
                && self.pools@[t].memory_type == t
        &&& forall|p: int|
            0 <= p < self.pools@.len() ==> (#[trigger] self.pools@[p]).memory_type
                < self.memory_types@.len()
        &&& forall|p: int|
            0 <= p < self.pools@.len() ==> (#[trigger] self.pools@[p]).inv(
                self.records@.len() as int,
            )
        &&& forall|i: int|
            0 <= i < self.records@.len() && (#[trigger] self.records@[i]).state
                == AllocState::Live ==> self.linked(i)
    }

    /// The extent a live record owns.
    pub open spec fn region_of(&self, i: int) -> crate::suballoc::Extent {
        let r = self.records@[i];
        used_ext(self.pools@[r.pool as int].blocks@[r.block as int].extents@, i as usize)
    }

    /// Build an engine from the device's memory-type table. Fails with
    /// `InvalidUsage` when a memory type names a heap that is not there.
    pub fn new(create_info: &AllocatorCreateInfo) -> (r: Result<Allocator, AllocError>)
        ensures
            r matches Ok(a) ==> a.wf() && a.records@.len() == 0 && a.current_frame == 0
                && a.frame_in_use_count == create_info.frame_in_use_count && a.memory_types@
                == create_info.memory_types@ && a.heap_sizes@ == create_info.heap_sizes@
                && a.pools@.len() == create_info.memory_types@.len() && (forall|t: int|
                0 <= t < a.pools@.len() ==> (#[trigger] a.pools@[t]).blocks@.len() == 0
                    && a.pools@[t].block_size == DEFAULT_BLOCK_SIZE && a.pools@[t].margin == 0
                    && a.pools@[t].min_block_count == 0 && a.pools@[t].alive
                    && a.pools@[t].memory_type == t) && (forall|h: int|
                0 <= h < a.heap_used@.len() ==> a.heap_used@[h] == 0),
            r matches Err(e) ==> e == AllocError::InvalidUsage && (exists|t: int|
                0 <= t < create_info.memory_types@.len() && (#[trigger] create_info.memory_types@[
                    t
                ]).heap_index >= create_info.heap_sizes@.len()),
            (forall|t: int|
                0 <= t < create_info.memory_types@.len()
                    ==> (#[trigger] create_info.memory_types@[t]).heap_index
                    < create_info.heap_sizes@.len()) ==> r.is_ok(),
    {
        let n_types = create_info.memory_types.len();
        let n_heaps = create_info.heap_sizes.len();
        let mut t: usize = 0;
        while t < n_types
            invariant
                n_types == create_info.memory_types@.len(),
                n_heaps == create_info.heap_sizes@.len(),
                0 <= t <= n_types,
                forall|j: int|
                    0 <= j < t ==> (#[trigger] create_info.memory_types@[j]).heap_index < n_heaps,
            decreases n_types - t,
        {
            if create_info.memory_types[t].heap_index >= n_heaps {
                return Err(AllocError::InvalidUsage);
            }
            t += 1;
        }
        let mut heap_used: Vec<usize> = Vec::new();
        while heap_used.len() < n_heaps
            invariant
                heap_used@.len() <= n_heaps,
                forall|h: int| 0 <= h < heap_used@.len() ==> heap_used@[h] == 0,
            decreases n_heaps - heap_used@.len(),
        {
            heap_used.push(0);
        }
        let mut pools: Vec<Pool> = Vec::new();
        let mut p: usize = 0;
        while p < n_types
            invariant
                n_types == create_info.memory_types@.len(),
                0 <= p <= n_types,
                pools@.len() == p,
                forall|j: int|
                    0 <= j < p ==> (#[trigger] pools@[j]).alive && pools@[j].memory_type == j
                        && pools@[j].inv(0) && pools@[j].blocks@.len() == 0 && pools@[j].block_size
                        == DEFAULT_BLOCK_SIZE && pools@[j].margin == 0 && pools@[
                        j
                    ].min_block_count == 0,
            decreases n_types - p,
        {
            pools.push(
                Pool {
                    memory_type: p,
                    block_size: DEFAULT_BLOCK_SIZE,
                    min_block_count: 0,
                    max_block_count: usize::MAX,
                    margin: 0,
                    alive: true,
                    blocks: Vec::new(),
                },
            );
            p += 1;
        }
        let mut heap_sizes: Vec<usize> = Vec::new();
        let mut hi: usize = 0;
        while hi < n_heaps
            invariant
                n_heaps == create_info.heap_sizes@.len(),
                0 <= hi <= n_heaps,
                heap_sizes@.len() == hi,
                forall|j: int| 0 <= j < hi ==> heap_sizes@[j] == create_info.heap_sizes@[j],
            decreases n_heaps - hi,
        {
            heap_sizes.push(create_info.heap_sizes[hi]);
            hi += 1;
        }
        proof {
            assert(heap_sizes@ =~= create_info.heap_sizes@);
        }
        let mut memory_types: Vec<MemoryType> = Vec::new();
        let mut ti: usize = 0;
        while ti < n_types
            invariant
                n_types == create_info.memory_types@.len(),
                0 <= ti <= n_types,
                memory_types@.len() == ti,
                forall|j: int| 0 <= j < ti ==> memory_types@[j] == create_info.memory_types@[j],
            decreases n_types - ti,
        {
            memory_types.push(create_info.memory_types[ti]);
            ti += 1;
        }
        proof {
            assert(memory_types@ =~= create_info.memory_types@);
        }
        let a = Allocator {
            heap_sizes,
            heap_used,
            memory_types,
            pools,
            records: Vec::new(),
            current_frame: 0,
            frame_in_use_count: create_info.frame_in_use_count,
        };
        proof {
            assert(a.wf()) by {
                assert(forall|j: int|
                    0 <= j < a.pools@.len() ==> (#[trigger] a.pools@[j]).inv(0));
            }
        }
        Ok(a)
    }

    /// Advance the engine's frame counter; ageing for lost-allocation
    /// eviction is measured against it.
    pub fn set_current_frame_index(&mut self, frame_index: u32)
        requires
            old(self).wf(),
        ensures
            final(self).wf(),
            *final(self) == (Allocator { current_frame: frame_index, ..*old(self) }),
    {
        self.current_frame = frame_index;
    }

    /// Create a pool with its own block-size and guard policy. Fails with
    /// `InvalidUsage` on a bad memory type, a zero block size, or bounds
    /// that leave no room for a single guarded allocation.
    pub fn create_pool(&mut self, create_info: &PoolCreateInfo) -> (r: Result<
        AllocatorPool,
        AllocError,
    >)
        requires
            old(self).wf(),
        ensures
            final(self).wf(),
            final(self).records@ == old(self).records@,
            final(self).current_frame == old(self).current_frame,
            r matches Err(e) ==> *final(self) == *old(self) && e == AllocError::InvalidUsage,
            r matches Ok(h) ==> ({
                &&& h.index == old(self).pools@.len()
                &&& final(self).pools@.len() == old(self).pools@.len() + 1
                &&& forall|q: int|
                    0 <= q < old(self).pools@.len() ==> final(self).pools@[q] == old(self).pools@[q]
                &&& final(self).pools@[h.index as int].alive
                &&& final(self).pools@[h.index as int].memory_type
                    == create_info.memory_type_index
                &&& final(self).pools@[h.index as int].block_size == create_info.block_size
                &&& final(self).pools@[h.index as int].margin == (if create_info.guarded {
                    GUARD_MARGIN as int
                } else {
                    0int
                })
                &&& final(self).pools@[h.index as int].blocks@.len() == 0
            }),
            r.is_ok() <==> (create_info.memory_type_index < old(self).memory_types@.len()
                && create_info.block_size >= 1 && (create_info.guarded
                ==> create_info.block_size > 2 * GUARD_MARGIN)),
    {
        if create_info.memory_type_index >= self.memory_types.len() {
            return Err(AllocError::InvalidUsage);
        }
        if create_info.block_size < 1 {
            return Err(AllocError::InvalidUsage);
        }
        if create_info.guarded && create_info.block_size <= 2 * GUARD_MARGIN {
            return Err(AllocError::InvalidUsage);
        }
        let h = AllocatorPool { index: self.pools.len() };
        self.pools.push(
            Pool {
                memory_type: create_info.memory_type_index,
                block_size: create_info.block_size,
                min_block_count: create_info.min_block_count,
                max_block_count: create_info.max_block_count,
                margin: if create_info.guarded {
                    GUARD_MARGIN
                } else {
                    0
                },
                alive: true,
                blocks: Vec::new(),
            },
        );
        proof {
            assert(final(self).wf()) by {
                assert(forall|q: int|
                    0 <= q < old(self).pools@.len() ==> final(self).pools@[q] == old(self).pools@[q]);
            }
        }
        Ok(h)
    }

    /// Register a fresh live record for a region just placed in block `b`
    /// of pool `p`; the extent's owner id is the new record's index.
    fn push_record(
        &mut self,
        p: usize,
        b: usize,
        may_lose: bool,
        user_data: usize,
        map_count: usize,
    ) -> (a: Allocation)
        requires
            p < old(self).pools@.len(),
            b < old(self).pools@[p as int].blocks@.len(),
            old(self).pools@[p as int].alive,
            old(self).pools@[p as int].blocks@[b as int].alive,
            has_used(
                old(self).pools@[p as int].blocks@[b as int].extents@,
                old(self).records@.len() as usize,
            ),
            old(self).heap_used@.len() == old(self).heap_sizes@.len(),
            old(self).memory_types@.len() <= old(self).pools@.len(),
            forall|t: int|
                0 <= t < old(self).memory_types@.len()
                    ==> (#[trigger] old(self).memory_types@[t]).heap_index < old(self).heap_sizes@.len(),
            forall|t: int|
                0 <= t < old(self).memory_types@.len() ==> (#[trigger] old(self).pools@[t]).alive
                    && old(self).pools@[t].memory_type == t,
            forall|q: int|
                0 <= q < old(self).pools@.len() ==> (#[trigger] old(self).pools@[q]).memory_type
                    < old(self).memory_types@.len(),
            forall|q: int|
                0 <= q < old(self).pools@.len() ==> (#[trigger] old(self).pools@[q]).inv(
                    old(self).records@.len() as int + 1,
                ),
            forall|i: int|
                0 <= i < old(self).records@.len() && (#[trigger] old(self).records@[i]).state
                    == AllocState::Live ==> old(self).linked(i),
        ensures
            final(self).wf(),
            a.index == old(self).records@.len(),
            final(self).records@ == old(self).records@.push(
                AllocRecord {
                    state: AllocState::Live,
                    pool: p,
                    block: b,
                    may_lose,
                    last_frame: old(self).current_frame,
                    user_data,
                    map_count,
                },
            ),
            final(self).pools@ == old(self).pools@,
            final(self).heap_used@ == old(self).heap_used@,
            final(self).heap_sizes@ == old(self).heap_sizes@,
            final(self).memory_types@ == old(self).memory_types@,
            final(self).current_frame == old(self).current_frame,
            final(self).frame_in_use_count == old(self).frame_in_use_count,
    {
        let a = Allocation { index: self.records.len() };
        self.records.push(
            AllocRecord {
                state: AllocState::Live,
                pool: p,
                block: b,
                may_lose,
                last_frame: self.current_frame,
                user_data,
                map_count,
            },
        );
        proof {
            assert forall|i: int|
                0 <= i < final(self).records@.len() && (#[trigger] final(self).records@[i]).state
                    == AllocState::Live implies final(self).linked(i) by {
                if i < old(self).records@.len() {
                    assert(old(self).records@[i].state == AllocState::Live);
                    assert(old(self).linked(i));
                }
            }
        }
        a
    }

    /// Whether some live block of the pool has a free region this request
    /// fits in.
    pub open spec fn pool_has_fit(pool: Pool, usz: usize, align: usize) -> bool {
        exists|b: int, k: int|
            0 <= b < pool.blocks@.len() && (#[trigger] pool.blocks@[b]).alive && 0 <= k
                < pool.blocks@[b].extents@.len() && can_place(
                #[trigger] pool.blocks@[b].extents@[k],
                usz,
                align,
                pool.margin,
            )
    }

    /// Try to place the request in an existing block of pool `p` and
    /// register a record for it. Does not grow the pool.
    #[verifier::spinoff_prover]
    #[verifier::rlimit(100)]
    fn try_allocate_in_pool(
        &mut self,
        p: usize,
        usz: usize,
        align: usize,
        strat: Strategy,
        may_lose: bool,
        user_data: usize,
        premap: bool,
    ) -> (r: Option<Allocation>)
        requires
            old(self).wf(),
            p < old(self).pools@.len(),
            old(self).pools@[p as int].alive,
            usz >= 1,
            align >= 1,
        ensures
            final(self).wf(),
            final(self).heap_sizes@ == old(self).heap_sizes@,
            final(self).heap_used@ == old(self).heap_used@,
            final(self).memory_types@ == old(self).memory_types@,
            final(self).current_frame == old(self).current_frame,
            final(self).frame_in_use_count == old(self).frame_in_use_count,
            final(self).pools@.len() == old(self).pools@.len(),
            r.is_none() ==> *final(self) == *old(self) && !Self::pool_has_fit(
                old(self).pools@[p as int],
                usz,
                align,
            ),
            r matches Some(a) ==> ({
                &&& a.index == old(self).records@.len()
                &&& final(self).records@.len() == old(self).records@.len() + 1
                &&& forall|i: int|
                    0 <= i < old(self).records@.len() ==> final(self).records@[i] == old(self).records@[i]
                &&& final(self).records@[a.index as int].state == AllocState::Live
                &&& final(self).records@[a.index as int].pool == p
                &&& final(self).records@[a.index as int].may_lose == may_lose
                &&& final(self).records@[a.index as int].user_data == user_data
                &&& final(self).records@[a.index as int].last_frame == old(self).current_frame
                &&& final(self).records@[a.index as int].map_count == (if premap {
                    1int
                } else {
                    0int
                })
                &&& final(self).region_of(a.index as int).user_size == usz
                &&& final(self).region_of(a.index as int).user_off as int % align as int == 0
                &&& (forall|q: int|
                    0 <= q < old(self).pools@.len() && q != p ==> final(self).pools@[q] == old(self).pools@[q])
                &&& final(self).pools@[p as int].blocks@.len() == old(self).pools@[p as int].blocks@.len()
                &&& final(self).pools@[p as int].alive
                &&& final(self).pools@[p as int].memory_type == old(self).pools@[p as int].memory_type
                &&& final(self).pools@[p as int].block_size == old(self).pools@[p as int].block_size
                &&& final(self).pools@[p as int].margin == old(self).pools@[p as int].margin
                &&& final(self).pools@[p as int].min_block_count == old(self).pools@[p as int].min_block_count
                &&& final(self).pools@[p as int].max_block_count == old(self).pools@[p as int].max_block_count
                &&& final(self).records@[a.index as int].block < old(self).pools@[p as int].blocks@.len()
                &&& ({
                    let b2 = final(self).records@[a.index as int].block as int;
                    let pre = old(self).pools@[p as int].blocks@[b2].extents@;
                    let post = final(self).pools@[p as int].blocks@[b2].extents@;
                    &&& (forall|bb: int|
                        0 <= bb && bb < old(self).pools@[p as int].blocks@.len() && bb != b2
                            ==> final(self).pools@[p as int].blocks@[bb] == old(self).pools@[p as int].blocks@[bb])
                    &&& (exists|i: int|
                        picked(pre, i, usz, align, old(self).pools@[p as int].margin, strat)
                            && post == place_in(
                            pre,
                            i,
                            usz,
                            align,
                            old(self).pools@[p as int].margin,
                            a.index,
                        ))
                    &&& used_count(post) == used_count(pre) + 1
                })
            }),
    {
        let ghost snap = *self;
        let found = self.find_block_with_fit(p, usz, align, strat);
        match found {
            None => {
                proof {
                    if Self::pool_has_fit(self.pools@[p as int], usz, align) {
                        let (bb, kk): (int, int) = choose|bb: int, kk: int|
                            0 <= bb < self.pools@[p as int].blocks@.len() && (#[trigger] self.pools@[
                                p as int
                            ].blocks@[bb]).alive && 0 <= kk < self.pools@[p as int].blocks@[
                                bb
                            ].extents@.len() && can_place(
                                #[trigger] self.pools@[p as int].blocks@[bb].extents@[kk],
                                usz,
                                align,
                                self.pools@[p as int].margin,
                            );
                        assert(false);
                    }
                }
                None
            },
            Some(b) => {
                let id = self.records.len();
                self.place_block_region(p, b, usz, align, strat, id, premap);
                proof {
                    lemma_used_unique(
                        self.pools@[p as int].blocks@[b as int].extents@,
                        self.pools@[p as int].blocks@[b as int].cap,
                        self.pools@[p as int].blocks@[b as int].margin,
                        id as usize,
                    );
                }
                let a = self.push_record(
                    p,
                    b,
                    may_lose,
                    user_data,
                    if premap {
                        1
                    } else {
                        0
                    },
                );
                Some(a)
            },
        }
    }

    /// First live block of pool `p` with room for the request.
    fn find_block_with_fit(&self, p: usize, usz: usize, align: usize, strat: Strategy) -> (r:
        Option<usize>)
        requires
            self.wf(),
            p < self.pools@.len(),
            align >= 1,
        ensures
            r matches Some(b) ==> b < self.pools@[p as int].blocks@.len() && self.pools@[
                p as int
            ].blocks@[b as int].alive && (exists|k: int|
                0 <= k < self.pools@[p as int].blocks@[b as int].extents@.len() && can_place(
                    #[trigger] self.pools@[p as int].blocks@[b as int].extents@[k],
                    usz,
                    align,
                    self.pools@[p as int].margin,
                )),
            r.is_none() ==> (forall|bb: int, k: int|
                0 <= bb < self.pools@[p as int].blocks@.len() && (#[trigger] self.pools@[
                    p as int
                ].blocks@[bb]).alive && 0 <= k < self.pools@[p as int].blocks@[bb].extents@.len()
                    ==> !can_place(
                    #[trigger] self.pools@[p as int].blocks@[bb].extents@[k],
                    usz,
                    align,
                    self.pools@[p as int].margin,
                )),
    {
        let n = self.pools[p].blocks.len();
        let mut b: usize = 0;
        while b < n
            invariant
                self.wf(),
                p < self.pools@.len(),
                align >= 1,
                n == self.pools@[p as int].blocks@.len(),
                0 <= b <= n,
                forall|bb: int, k: int|
                    0 <= bb < b && (#[trigger] self.pools@[p as int].blocks@[bb]).alive && 0 <= k
                        < self.pools@[p as int].blocks@[bb].extents@.len() ==> !can_place(
                        #[trigger] self.pools@[p as int].blocks@[bb].extents@[k],
                        usz,
                        align,
                        self.pools@[p as int].margin,
                    ),
            decreases n - b,
        {
            if self.pools[p].blocks[b].alive {
                let fit = self.pools[p].blocks[b].find_fit(usz, align, strat);
                proof {
                    assert(self.pools@[p as int].blocks@[b as int].margin == self.pools@[
                        p as int
                    ].margin);
                }
                match fit {
                    Some(k) => {
                        proof {
                            assert(can_place(
                                self.pools@[p as int].blocks@[b as int].extents@[k as int],
                                usz,
                                align,
                                self.pools@[p as int].margin,
                            ));
                        }
                        return Some(b);
                    },
                    None => {},
                }
            }
            b += 1;
        }
        None
    }

    /// Place a request in block `b` of pool `p` for the future record
    /// `id`, and re-establish the engine invariant pieces that placement
    /// touches.
    #[verifier::spinoff_prover]
    #[verifier::rlimit(100)]
    fn place_block_region(
        &mut self,
        p: usize,
        b: usize,
        usz: usize,
        align: usize,
        strat: Strategy,
        id: usize,
        premap: bool,
    )
        requires
            old(self).wf(),
            p < old(self).pools@.len(),
            old(self).pools@[p as int].alive,
            b < old(self).pools@[p as int].blocks@.len(),
            old(self).pools@[p as int].blocks@[b as int].alive,
            exists|k: int|
                0 <= k < old(self).pools@[p as int].blocks@[b as int].extents@.len() && can_place(
                    #[trigger] old(self).pools@[p as int].blocks@[b as int].extents@[k],
                    usz,
                    align,
                    old(self).pools@[p as int].margin,
                ),
            usz >= 1,
            align >= 1,
            id == old(self).records@.len(),
        ensures
            final(self).records@ == old(self).records@,
            final(self).heap_sizes@ == old(self).heap_sizes@,
            final(self).heap_used@ == old(self).heap_used@,
            final(self).memory_types@ == old(self).memory_types@,
            final(self).current_frame == old(self).current_frame,
            final(self).frame_in_use_count == old(self).frame_in_use_count,
            final(self).pools@.len() == old(self).pools@.len(),
            final(self).memory_types@.len() <= final(self).pools@.len(),
            forall|q: int|
                0 <= q < old(self).pools@.len() && q != p ==> final(self).pools@[q] == old(self).pools@[q],
            forall|q: int|
                0 <= q < final(self).pools@.len() ==> (#[trigger] final(self).pools@[q]).inv(
                    id as int + 1,
                ),
            forall|q: int|
                0 <= q < final(self).pools@.len() ==> (#[trigger] final(self).pools@[q]).alive
                    == old(self).pools@[q].alive && final(self).pools@[q].memory_type == old(self).pools@[q].memory_type,
            forall|i: int|
                0 <= i < final(self).records@.len() && (#[trigger] final(self).records@[i]).state
                    == AllocState::Live ==> final(self).linked(i),
            final(self).pools@[p as int].blocks@.len() == old(self).pools@[p as int].blocks@.len(),
            final(self).pools@[p as int].alive,
            final(self).pools@[p as int].blocks@[b as int].alive,
            has_used(final(self).pools@[p as int].blocks@[b as int].extents@, id),
            used_ext(final(self).pools@[p as int].blocks@[b as int].extents@, id).user_size == usz,
            used_ext(final(self).pools@[p as int].blocks@[b as int].extents@, id).user_off as int
                % align as int == 0,
            forall|bb: int|
                0 <= bb && bb < old(self).pools@[p as int].blocks@.len() && bb != b ==> final(self).pools@[p as int].blocks@[bb] == old(self).pools@[p as int].blocks@[bb],
            exists|i: int|
                picked(
                    old(self).pools@[p as int].blocks@[b as int].extents@,
                    i,
                    usz,
                    align,
                    old(self).pools@[p as int].margin,
                    strat,
                ) && final(self).pools@[p as int].blocks@[b as int].extents@ == place_in(
                    old(self).pools@[p as int].blocks@[b as int].extents@,
                    i,
                    usz,
                    align,
                    old(self).pools@[p as int].margin,
                    id,
                ),
            used_count(final(self).pools@[p as int].blocks@[b as int].extents@) == used_count(
                old(self).pools@[p as int].blocks@[b as int].extents@,
            ) + 1,
            final(self).pools@[p as int].blocks@[b as int].map_count as int == old(self).pools@[p as int].blocks@[b as int].map_count + (if premap && old(self).pools@[
                p as int
            ].blocks@[b as int].map_count < usize::MAX {
                1int
            } else {
                0int
            }),
            final(self).pools@[p as int].memory_type == old(self).pools@[p as int].memory_type,
            final(self).pools@[p as int].block_size == old(self).pools@[p as int].block_size,
            final(self).pools@[p as int].margin == old(self).pools@[p as int].margin,
            final(self).pools@[p as int].min_block_count == old(self).pools@[p as int].min_block_count,
            final(self).pools@[p as int].max_block_count == old(self).pools@[p as int].max_block_count,
    {
        let ghost snap = *self;
        let mut pool = self.pools.remove(p);
        let mut blk = pool.blocks.remove(b);
        proof {
            assert(blk == snap.pools@[p as int].blocks@[b as int]);
            assert(block_wf(blk) && blk.alive);
            assert(forall|k: int|
                0 <= k < blk.extents@.len() && (#[trigger] blk.extents@[k]).used
                    ==> blk.extents@[k].id < id);
        }
        let got = blk.allocate(usz, align, strat, id);
        if premap && blk.map_count < usize::MAX {
            blk.map_count = blk.map_count + 1;
        }
        pool.blocks.insert(b, blk);
        self.pools.insert(p, pool);
        proof {
            assert(self.pools@ =~= snap.pools@.update(
                p as int,
                Pool { blocks: pool.blocks, ..snap.pools@[p as int] },
            ));
            assert(pool.blocks@ =~= snap.pools@[p as int].blocks@.update(b as int, blk));
        }
        if got.is_none() {
            proof {
                assert(false);
            }
            return ;
        }
        proof {
            assert(has_used(self.pools@[p as int].blocks@[b as int].extents@, id as usize));
            lemma_used_unique(
                self.pools@[p as int].blocks@[b as int].extents@,
                self.pools@[p as int].blocks@[b as int].cap,
                self.pools@[p as int].blocks@[b as int].margin,
                id as usize,
            );
            let oldext = snap.pools@[p as int].blocks@[b as int].extents@;
            let m0 = snap.pools@[p as int].margin;
            let wi = choose|i: int|
                picked(oldext, i, usz, align, m0, strat) && self.pools@[p as int].blocks@[
                    b as int
                ].extents@ == place_in(oldext, i, usz, align, m0, id);
            crate::suballoc::lemma_place_ok(
                oldext,
                snap.pools@[p as int].blocks@[b as int].cap,
                m0,
                wi,
                usz,
                align,
                id,
            );
            assert forall|q: int|
                0 <= q < self.pools@.len() implies (#[trigger] self.pools@[q]).inv(
                id as int + 1,
            ) by {
                if q != p {
                    assert(self.pools@[q] == snap.pools@[q]);
                    assert(snap.pools@[q].inv(id as int));
                } else {
                    let np = self.pools@[p as int];
                    assert(np.blocks@[b as int] == blk);
                    assert forall|bb: int|
                        0 <= bb < np.blocks@.len() implies block_wf(#[trigger] np.blocks@[bb]) && (
                        (#[trigger] np.blocks@[bb]).alive ==> np.blocks@[bb].margin
                            == np.margin) by {
                        if bb != b {
                            assert(np.blocks@[bb] == snap.pools@[p as int].blocks@[bb]);
                        }
                    }
                    assert forall|bb: int, k: int|
                        0 <= bb < np.blocks@.len() && 0 <= k < np.blocks@[bb].extents@.len() && (
                        #[trigger] np.blocks@[bb].extents@[k]).used implies np.blocks@[
                        bb
                    ].extents@[k].id < id as int + 1 by {
                        if bb != b {
                            assert(np.blocks@[bb] == snap.pools@[p as int].blocks@[bb]);
                        } else {
                            let j = np.blocks@[bb].extents@[k].id;
                            if j != id {
                                let olde = snap.pools@[p as int].blocks@[b as int].extents@;
                                assert(has_used(olde, j));
                                assert(forall|k2: int|
                                    0 <= k2 < olde.len() && (#[trigger] olde[k2]).used ==> olde[
                                        k2
                                    ].id < id as int);
                                lemma_ids_below(olde, id as int, j);
                            }
                        }
                    }
                }
            }
            assert forall|i: int|
                0 <= i < self.records@.len() && (#[trigger] self.records@[i]).state
                    == AllocState::Live implies self.linked(i) by {
                assert(snap.linked(i));
                let rr = self.records@[i];
                if rr.pool == p && rr.block == b {
                    assert(has_used(
                        snap.pools@[p as int].blocks@[b as int].extents@,
                        i as usize,
                    ));
                } else if rr.pool == p {
                    assert(self.pools@[p as int].blocks@[rr.block as int] == snap.pools@[
                        p as int
                    ].blocks@[rr.block as int]);
                } else {
                    assert(self.pools@[rr.pool as int] == snap.pools@[rr.pool as int]);
                }
            }
        }
    }

    /// Grow pool `p` by one block, charging its heap. `None` when the pool
    /// is at its block limit or the heap has no room.
    #[verifier::spinoff_prover]
    #[verifier::rlimit(100)]
    fn grow_pool(&mut self, p: usize, bs: usize) -> (r: Option<usize>)
        requires
            old(self).wf(),
            p < old(self).pools@.len(),
            old(self).pools@[p as int].alive,
            bs >= 1,
        ensures
            final(self).wf(),
            final(self).records@ == old(self).records@,
            final(self).memory_types@ == old(self).memory_types@,
            final(self).heap_sizes@ == old(self).heap_sizes@,
            final(self).current_frame == old(self).current_frame,
            final(self).frame_in_use_count == old(self).frame_in_use_count,
            final(self).pools@.len() == old(self).pools@.len(),
            r.is_none() ==> *final(self) == *old(self),
            r matches Some(b) ==> ({
                &&& b == old(self).pools@[p as int].blocks@.len()
                &&& final(self).pools@[p as int].blocks@.len() == b + 1
                &&& forall|q: int|
                    0 <= q < old(self).pools@.len() && q != p ==> final(self).pools@[q] == old(self).pools@[q]
                &&& forall|bb: int|
                    0 <= bb < b ==> final(self).pools@[p as int].blocks@[bb] == old(self).pools@[p as int].blocks@[bb]
                &&& final(self).pools@[p as int].blocks@[b as int].alive
                &&& final(self).pools@[p as int].blocks@[b as int].cap == bs
                &&& final(self).pools@[p as int].blocks@[b as int].extents@ == seq![
                    free_ext(0, bs as int),
                ]
                &&& final(self).pools@[p as int].blocks@[b as int].margin == old(self).pools@[p as int].margin
                &&& final(self).pools@[p as int].alive
                &&& final(self).pools@[p as int].memory_type == old(self).pools@[p as int].memory_type
                &&& final(self).pools@[p as int].block_size == old(self).pools@[p as int].block_size
                &&& final(self).pools@[p as int].margin == old(self).pools@[p as int].margin
                &&& final(self).pools@[p as int].min_block_count == old(self).pools@[p as int].min_block_count
                &&& final(self).pools@[p as int].max_block_count == old(self).pools@[p as int].max_block_count
            }),
    {
        let ghost snap = *self;
        let nblocks = self.pools[p].blocks.len();
        if nblocks >= self.pools[p].max_block_count {
            return None;
        }
        let t = self.pools[p].memory_type;
        proof {
            assert(self.pools@[p as int].memory_type < self.memory_types@.len());
        }
        let h = self.memory_types[t].heap_index;
        proof {
            assert(self.memory_types@[t as int].heap_index < self.heap_sizes@.len());
        }
        if bs > self.heap_sizes[h] {
            return None;
        }
        if self.heap_used[h] > self.heap_sizes[h] - bs {
            return None;
        }
        let new_used = self.heap_used[h] + bs;
        self.heap_used.set(h, new_used);
        let margin = self.pools[p].margin;
        let blk = Block::new(bs, margin);
        let mut pool = self.pools.remove(p);
        pool.blocks.push(blk);
        self.pools.insert(p, pool);
        proof {
            assert(self.pools@ =~= snap.pools@.update(
                p as int,
                Pool { blocks: pool.blocks, ..snap.pools@[p as int] },
            ));
            assert(pool.blocks@ =~= snap.pools@[p as int].blocks@.push(blk));
            assert forall|q: int|
                0 <= q < self.pools@.len() implies (#[trigger] self.pools@[q]).inv(
                self.records@.len() as int,
            ) by {
                if q != p {
                    assert(self.pools@[q] == snap.pools@[q]);
                }
                assert(snap.pools@[q].inv(self.records@.len() as int));
            }
            assert forall|i: int|
                0 <= i < self.records@.len() && (#[trigger] self.records@[i]).state
                    == AllocState::Live implies self.linked(i) by {
                assert(snap.linked(i));
            }
        }
        Some(nblocks)
    }

    /// Free the extent owned by `i` inside block `b` of pool `p`.
    #[verifier::spinoff_prover]
    #[verifier::rlimit(100)]
    fn free_block_region(&mut self, p: usize, b: usize, i: usize)
        requires
            p < old(self).pools@.len(),
            b < old(self).pools@[p as int].blocks@.len(),
            block_wf(old(self).pools@[p as int].blocks@[b as int]),
            old(self).pools@[p as int].blocks@[b as int].alive,
            has_used(old(self).pools@[p as int].blocks@[b as int].extents@, i),
        ensures
            final(self).records@ == old(self).records@,
            final(self).heap_sizes@ == old(self).heap_sizes@,
            final(self).heap_used@ == old(self).heap_used@,
            final(self).memory_types@ == old(self).memory_types@,
            final(self).current_frame == old(self).current_frame,
            final(self).frame_in_use_count == old(self).frame_in_use_count,
            final(self).pools@.len() == old(self).pools@.len(),
            forall|q: int|
                0 <= q < old(self).pools@.len() && q != p ==> final(self).pools@[q] == old(self).pools@[q],
            ({
                let op = old(self).pools@[p as int];
                let np = final(self).pools@[p as int];
                &&& np.memory_type == op.memory_type
                &&& np.block_size == op.block_size
                &&& np.min_block_count == op.min_block_count
                &&& np.max_block_count == op.max_block_count
                &&& np.margin == op.margin
                &&& np.alive == op.alive
                &&& np.blocks@.len() == op.blocks@.len()
                &&& (forall|bb: int|
                    0 <= bb && bb < op.blocks@.len() && bb != b ==> np.blocks@[bb]
                        == op.blocks@[bb])
            }),
            ({
                let ob = old(self).pools@[p as int].blocks@[b as int];
                let nb = final(self).pools@[p as int].blocks@[b as int];
                &&& block_wf(nb)
                &&& nb.alive == ob.alive
                &&& nb.cap == ob.cap
                &&& nb.margin == ob.margin
                &&& nb.map_count == ob.map_count
                &&& nb.bytes@ == ob.bytes@
                &&& !has_used(nb.extents@, i)
                &&& (forall|j: usize|
                    j != i ==> (has_used(nb.extents@, j) <==> has_used(ob.extents@, j)))
                &&& (forall|j: usize|
                    j != i && has_used(ob.extents@, j) ==> used_ext(nb.extents@, j) == used_ext(
                        ob.extents@,
                        j,
                    ))
                &&& free_total(nb.extents@) == free_total(ob.extents@) + used_ext(
                    ob.extents@,
                    i,
                ).size
                &&& used_total(nb.extents@) == used_total(ob.extents@) - used_ext(
                    ob.extents@,
                    i,
                ).size
                &&& used_count(nb.extents@) == used_count(ob.extents@) - 1
                &&& nb.extents@ == free_merge(ob.extents@, used_at(ob.extents@, i))
                &&& (forall|x: int|
                    0 <= x < nb.extents@.len() && (#[trigger] nb.extents@[x]).used ==> has_used(
                        ob.extents@,
                        nb.extents@[x].id,
                    ))
            }),
    {
        let ghost snap = *self;
        let mut pool = self.pools.remove(p);
        let mut blk = pool.blocks.remove(b);
        proof {
            assert(blk == snap.pools@[p as int].blocks@[b as int]);
        }
        let ok = blk.free_by_id(i);
        pool.blocks.insert(b, blk);
        self.pools.insert(p, pool);
        proof {
            assert(ok);
            assert(self.pools@ =~= snap.pools@.update(
                p as int,
                Pool { blocks: pool.blocks, ..snap.pools@[p as int] },
            ));
            assert(pool.blocks@ =~= snap.pools@[p as int].blocks@.update(b as int, blk));
        }
    }

    /// Turn record `i`'s region back into free space and mark the record
    /// `Lost` or `Freed`.
    #[verifier::spinoff_prover]
    #[verifier::rlimit(100)]
    fn release_record(&mut self, i: usize, next: AllocState)
        requires
            old(self).wf(),
            i < old(self).records@.len(),
            old(self).records@[i as int].state == AllocState::Live,
            next != AllocState::Live,
        ensures
            final(self).wf(),
            final(self).records@ == old(self).records@.update(
                i as int,
                AllocRecord { state: next, ..old(self).records@[i as int] },
            ),
            final(self).heap_sizes@ == old(self).heap_sizes@,
            final(self).heap_used@ == old(self).heap_used@,
            final(self).memory_types@ == old(self).memory_types@,
            final(self).current_frame == old(self).current_frame,
            final(self).frame_in_use_count == old(self).frame_in_use_count,
            final(self).pools@.len() == old(self).pools@.len(),
            ({
                let rp = old(self).records@[i as int].pool as int;
                let rb = old(self).records@[i as int].block as int;
                &&& (forall|q: int|
                    0 <= q < old(self).pools@.len() && q != rp ==> final(self).pools@[q] == old(self).pools@[q])
                &&& final(self).pools@[rp].blocks@.len() == old(self).pools@[rp].blocks@.len()
                &&& (forall|bb: int|
                    0 <= bb && bb < old(self).pools@[rp].blocks@.len() && bb != rb ==> final(self).pools@[rp].blocks@[bb] == old(self).pools@[rp].blocks@[bb])
                &&& !has_used(final(self).pools@[rp].blocks@[rb].extents@, i)
                &&& (forall|j: usize|
                    j != i ==> (has_used(final(self).pools@[rp].blocks@[rb].extents@, j)
                        <==> has_used(old(self).pools@[rp].blocks@[rb].extents@, j)))
                &&& (forall|j: usize|
                    j != i && has_used(old(self).pools@[rp].blocks@[rb].extents@, j) ==> used_ext(
                        final(self).pools@[rp].blocks@[rb].extents@,
                        j,
                    ) == used_ext(old(self).pools@[rp].blocks@[rb].extents@, j))
                &&& final(self).pools@[rp].blocks@[rb].extents@ == free_merge(
                    old(self).pools@[rp].blocks@[rb].extents@,
                    used_at(old(self).pools@[rp].blocks@[rb].extents@, i),
                )
                &&& free_total(final(self).pools@[rp].blocks@[rb].extents@) == free_total(
                    old(self).pools@[rp].blocks@[rb].extents@,
                ) + used_ext(old(self).pools@[rp].blocks@[rb].extents@, i).size
                &&& final(self).pools@[rp].blocks@[rb].bytes@ == old(self).pools@[rp].blocks@[rb].bytes@
                &&& final(self).pools@[rp].blocks@[rb].cap == old(self).pools@[rp].blocks@[rb].cap
                &&& final(self).pools@[rp].blocks@[rb].alive
                &&& final(self).pools@[rp].alive
                &&& final(self).pools@[rp].memory_type == old(self).pools@[rp].memory_type
                &&& final(self).pools@[rp].block_size == old(self).pools@[rp].block_size
                &&& final(self).pools@[rp].margin == old(self).pools@[rp].margin
                &&& final(self).pools@[rp].min_block_count == old(self).pools@[rp].min_block_count
                &&& final(self).pools@[rp].max_block_count == old(self).pools@[rp].max_block_count
            }),
    {
        let ghost snap = *self;
        let rec = self.records[i];
        let p = rec.pool;
        let b = rec.block;
        self.free_block_region(p, b, i);
        let rec2 = AllocRecord { state: next, ..rec };
        self.records.set(i, rec2);
        let nrec = self.records.len();
        proof {
            assert(self.records@.len() == nrec);
            let bound = self.records@.len() as int;
            assert forall|q: int|
                0 <= q < self.pools@.len() implies (#[trigger] self.pools@[q]).inv(bound) by {
                if q != p {
                    assert(self.pools@[q] == snap.pools@[q]);
                    assert(snap.pools@[q].inv(bound));
                } else {
                    let np = self.pools@[p as int];
                    let op = snap.pools@[p as int];
                    assert(op.inv(bound));
                    assert forall|bb: int|
                        0 <= bb < np.blocks@.len() implies block_wf(#[trigger] np.blocks@[bb])
                            && ((#[trigger] np.blocks@[bb]).alive ==> np.blocks@[bb].margin
                        == np.margin) by {
                        if bb != b {
                            assert(np.blocks@[bb] == op.blocks@[bb]);
                        }
                    }
                    assert forall|bb: int, k: int|
                        0 <= bb < np.blocks@.len() && 0 <= k < np.blocks@[bb].extents@.len() && (
                        #[trigger] np.blocks@[bb].extents@[k]).used implies np.blocks@[
                        bb
                    ].extents@[k].id < bound by {
                        if bb != b {
                            assert(np.blocks@[bb] == op.blocks@[bb]);
                        } else {
                            let j = np.blocks@[bb].extents@[k].id;
                            let olde = op.blocks@[b as int].extents@;
                            assert(has_used(olde, j));
                            assert(forall|k2: int|
                                0 <= k2 < olde.len() && (#[trigger] olde[k2]).used ==> olde[
                                    k2
                                ].id < bound);
                            lemma_ids_below(olde, bound, j);
                        }
                    }
                }
            }
            assert forall|j: int|
                0 <= j < self.records@.len() && (#[trigger] self.records@[j]).state
                    == AllocState::Live implies self.linked(j) by {
                assert(j != i);
                assert(snap.records@[j] == self.records@[j]);
                assert(snap.linked(j));
                let rr = self.records@[j];
                if rr.pool == p && rr.block == b {
                    assert((j as usize) != i);
                    assert(has_used(snap.pools@[p as int].blocks@[b as int].extents@, j as usize));
                    assert(has_used(self.pools@[p as int].blocks@[b as int].extents@, j as usize));
                } else if rr.pool == p {
                    assert(self.pools@[p as int].blocks@[rr.block as int] == snap.pools@[
                        p as int
                    ].blocks@[rr.block as int]);
                } else {
                    assert(self.pools@[rr.pool as int] == snap.pools@[rr.pool as int]);
                }
            }
        }
    }

    /// Number of evictable records of pool `p` among the first `n` records.
    pub open spec fn count_evictable(
        recs: Seq<AllocRecord>,
        p: usize,
        frame: u32,
        threshold: u32,
        n: int,
    ) -> int
        decreases n,
    {
        if n <= 0 {
            0
        } else {
            Self::count_evictable(recs, p, frame, threshold, n - 1) + if recs[n - 1].pool == p
                && evictable_rec(recs[n - 1], frame, threshold) {
                1int
            } else {
                0int
            }
        }
    }

    /// Evict every evictable allocation of the pool (the aging gate: lost-
    /// eligible and untouched for more than the threshold). Returns how
    /// many were made lost.
    #[verifier::rlimit(100)]
    pub fn make_pool_allocations_lost(&mut self, pool: &AllocatorPool) -> (r: Result<
        usize,
        AllocError,
    >)
        requires
            old(self).wf(),
        ensures
            final(self).wf(),
            r matches Err(e) ==> e == AllocError::InvalidUsage && *final(self) == *old(self) && !(
            pool.index < old(self).pools@.len() && old(self).pools@[pool.index as int].alive),
            final(self).pools@.len() == old(self).pools@.len(),
            final(self).current_frame == old(self).current_frame,
            final(self).frame_in_use_count == old(self).frame_in_use_count,
            final(self).heap_sizes@ == old(self).heap_sizes@,
            final(self).heap_used@ == old(self).heap_used@,
            final(self).memory_types@ == old(self).memory_types@,
            forall|q: int|
                0 <= q < old(self).pools@.len() && q != pool.index ==> final(self).pools@[q]
                    == old(self).pools@[q],
            r matches Ok(c) ==> ({
                &&& pool.index < old(self).pools@.len()
                &&& old(self).pools@[pool.index as int].alive
                &&& final(self).pools@[pool.index as int].alive
                &&& final(self).pools@[pool.index as int].blocks@.len() == old(self).pools@[
                    pool.index as int
                ].blocks@.len()
                &&& final(self).pools@[pool.index as int].memory_type == old(self).pools@[
                    pool.index as int
                ].memory_type
                &&& final(self).pools@[pool.index as int].block_size == old(self).pools@[
                    pool.index as int
                ].block_size
                &&& final(self).pools@[pool.index as int].margin == old(self).pools@[
                    pool.index as int
                ].margin
                &&& final(self).pools@[pool.index as int].min_block_count == old(self).pools@[
                    pool.index as int
                ].min_block_count
                &&& final(self).pools@[pool.index as int].max_block_count == old(self).pools@[
                    pool.index as int
                ].max_block_count
                &&& (forall|i: int|
                    0 <= i < old(self).records@.len() && old(self).records@[i].pool == pool.index
                        && evictable_rec(
                        #[trigger] old(self).records@[i],
                        old(self).current_frame,
                        old(self).frame_in_use_count,
                    ) ==> !has_used(
                        final(self).pools@[pool.index as int].blocks@[old(self).records@[
                            i
                        ].block as int].extents@,
                        i as usize,
                    ))
                &&& final(self).records@.len() == old(self).records@.len()
                &&& forall|i: int|
                    0 <= i < old(self).records@.len() ==> final(self).records@[i] == (if old(self).records@[i].pool == pool.index && evictable_rec(
                        old(self).records@[i],
                        old(self).current_frame,
                        old(self).frame_in_use_count,
                    ) {
                        lost_of(old(self).records@[i])
                    } else {
                        old(self).records@[i]
                    })
                &&& c == Self::count_evictable(
                    old(self).records@,
                    pool.index,
                    old(self).current_frame,
                    old(self).frame_in_use_count,
                    old(self).records@.len() as int,
                )
                &&& (c == 0 ==> final(self).pools@ == old(self).pools@ && final(self).records@
                    == old(self).records@)
            }),
    {
        let p = pool.index;
        if p >= self.pools.len() {
            return Err(AllocError::InvalidUsage);
        }
        if !self.pools[p].alive {
            return Err(AllocError::InvalidUsage);
        }
        let n = self.records.len();
        let frame = self.current_frame;
        let threshold = self.frame_in_use_count;
        let mut count: usize = 0;
        let mut i: usize = 0;
        while i < n
            invariant
                self.wf(),
                n == self.records@.len(),
                n == old(self).records@.len(),
                0 <= i <= n,
                self.pools@.len() == old(self).pools@.len(),
                p < self.pools@.len(),
                self.pools@[p as int].alive,
                self.heap_sizes@ == old(self).heap_sizes@,
                self.heap_used@ == old(self).heap_used@,
                self.memory_types@ == old(self).memory_types@,
                forall|q: int|
                    0 <= q < old(self).pools@.len() && q != p ==> self.pools@[q] == old(self).pools@[q],
                self.pools@[p as int].blocks@.len() == old(self).pools@[p as int].blocks@.len(),
                self.pools@[p as int].memory_type == old(self).pools@[p as int].memory_type,
                self.pools@[p as int].block_size == old(self).pools@[p as int].block_size,
                self.pools@[p as int].margin == old(self).pools@[p as int].margin,
                self.pools@[p as int].min_block_count == old(self).pools@[p as int].min_block_count,
                self.pools@[p as int].max_block_count == old(self).pools@[p as int].max_block_count,
                forall|j: int|
                    0 <= j < i && old(self).records@[j].pool == p && evictable_rec(
                        #[trigger] old(self).records@[j],
                        frame,
                        threshold,
                    ) ==> !has_used(
                        self.pools@[p as int].blocks@[old(self).records@[j].block as int].extents@,
                        j as usize,
                    ),
                frame == old(self).current_frame,
                threshold == old(self).frame_in_use_count,
                self.current_frame == old(self).current_frame,
                self.frame_in_use_count == old(self).frame_in_use_count,
                p == pool.index,
                count == Self::count_evictable(old(self).records@, p, frame, threshold, i as int),
                count <= i,
                count == 0 ==> self.pools@ == old(self).pools@ && self.records@ == old(self).records@,
                forall|j: int|
                    0 <= j < n && (#[trigger] old(self).records@[j]).state == AllocState::Live
                        ==> old(self).linked(j),
                forall|j: int|
                    0 <= j < n ==> self.records@[j] == (if j < i && old(self).records@[j].pool == p
                        && evictable_rec(old(self).records@[j], frame, threshold) {
                        lost_of(old(self).records@[j])
                    } else {
                        old(self).records@[j]
                    }),
            decreases n - i,
        {
            let rec = self.records[i];
            if rec.pool == p && rec.may_lose && matches!(rec.state, AllocState::Live) {
                let aged = rec.last_frame < u32::MAX - threshold && rec.last_frame + threshold
                    < frame;
                if aged {
                    let ghost pre = *self;
                    self.release_record(i, AllocState::Lost);
                    count += 1;
                    proof {
                        assert forall|j: int|
                            0 <= j < i + 1 && old(self).records@[j].pool == p && evictable_rec(
                                #[trigger] old(self).records@[j],
                                frame,
                                threshold,
                            ) implies !has_used(
                            self.pools@[p as int].blocks@[old(self).records@[
                                j
                            ].block as int].extents@,
                            j as usize,
                        ) by {
                            let bj = old(self).records@[j].block as int;
                            let rb = pre.records@[i as int].block as int;
                            assert(old(self).records@[j].state == AllocState::Live);
                            assert(old(self).linked(j));
                            if j == i {
                                assert(pre.records@[i as int] == old(self).records@[i as int]);
                            } else {
                                assert(!has_used(
                                    pre.pools@[p as int].blocks@[bj].extents@,
                                    j as usize,
                                ));
                                if bj != rb {
                                    assert(self.pools@[p as int].blocks@[bj] == pre.pools@[
                                        p as int
                                    ].blocks@[bj]);
                                } else {
                                    assert((j as usize) != i);
                                }
                            }
                        }
                    }
                }
            }
            i += 1;
        }
        Ok(count)
    }

    /// Renew an allocation's liveness: updates its last-used frame and
    /// reports true. A lost allocation is not resurrected: the touch fails
    /// and the caller must recreate it.
    pub fn touch_allocation(&mut self, allocation: &Allocation) -> (r: bool)
        requires
            old(self).wf(),
            allocation.index < old(self).records@.len(),
            old(self).records@[allocation.index as int].state != AllocState::Freed,
        ensures
            final(self).wf(),
            r == touch_succeeds(old(self).records@[allocation.index as int]),
            final(self).pools@ == old(self).pools@,
            final(self).heap_used@ == old(self).heap_used@,
            final(self).heap_sizes@ == old(self).heap_sizes@,
            final(self).memory_types@ == old(self).memory_types@,
            final(self).current_frame == old(self).current_frame,
            final(self).frame_in_use_count == old(self).frame_in_use_count,
            final(self).records@.len() == old(self).records@.len(),
            r ==> final(self).records@ == old(self).records@.update(
                allocation.index as int,
                touched(
                    old(self).records@[allocation.index as int],
                    old(self).current_frame,
                ),
            ),
            !r ==> *final(self) == *old(self),
    {
        let i = allocation.index;
        let rec = self.records[i];
        match rec.state {
            AllocState::Live => {
                let rec2 = AllocRecord { last_frame: self.current_frame, ..rec };
                self.records.set(i, rec2);
                proof {
                    assert forall|j: int|
                        0 <= j < self.records@.len() && (#[trigger] self.records@[j]).state
                            == AllocState::Live implies self.linked(j) by {
                        assert(old(self).linked(j) || j == i);
                        if j == i {
                            assert(old(self).linked(i as int));
                        }
                    }
                }
                true
            },
            AllocState::Lost => false,
            AllocState::Freed => false,
        }
    }

    /// Release an allocation's memory for good. Freeing a lost allocation
    /// only retires its record. Freeing twice is a usage error.
    pub fn free_memory(&mut self, allocation: &Allocation) -> (r: Result<(), AllocError>)
        requires
            old(self).wf(),
        ensures
            final(self).wf(),
            r matches Err(e) ==> e == AllocError::InvalidUsage && *final(self) == *old(self) && !(
            allocation.index < old(self).records@.len() && old(self).records@[
                allocation.index as int
            ].state != AllocState::Freed),
            r.is_ok() <==> allocation.index < old(self).records@.len() && old(self).records@[
                allocation.index as int
            ].state != AllocState::Freed,
            r.is_ok() ==> final(self).records@ == old(self).records@.update(
                allocation.index as int,
                AllocRecord {
                    state: AllocState::Freed,
                    ..old(self).records@[allocation.index as int]
                },
            ),
            final(self).pools@.len() == old(self).pools@.len(),
            final(self).heap_used@ == old(self).heap_used@,
            final(self).heap_sizes@ == old(self).heap_sizes@,
            final(self).memory_types@ == old(self).memory_types@,
            final(self).current_frame == old(self).current_frame,
            final(self).frame_in_use_count == old(self).frame_in_use_count,
            r.is_ok() && old(self).records@[allocation.index as int].state != AllocState::Live
                ==> final(self).pools@ == old(self).pools@,
            r.is_ok() && old(self).records@[allocation.index as int].state == AllocState::Live
                ==> ({
                let rp = old(self).records@[allocation.index as int].pool as int;
                let rb = old(self).records@[allocation.index as int].block as int;
                &&& !has_used(final(self).pools@[rp].blocks@[rb].extents@, allocation.index)
                &&& (forall|q: int|
                    0 <= q < old(self).pools@.len() && q != rp ==> final(self).pools@[q] == old(self).pools@[q])
                &&& final(self).pools@[rp].blocks@.len() == old(self).pools@[rp].blocks@.len()
                &&& (forall|bb: int|
                    0 <= bb && bb < old(self).pools@[rp].blocks@.len() && bb != rb ==> final(self).pools@[rp].blocks@[bb] == old(self).pools@[rp].blocks@[bb])
                &&& final(self).pools@[rp].blocks@[rb].extents@ == free_merge(
                    old(self).pools@[rp].blocks@[rb].extents@,
                    used_at(old(self).pools@[rp].blocks@[rb].extents@, allocation.index),
                )
                &&& (forall|j: usize|
                    j != allocation.index ==> (has_used(
                        final(self).pools@[rp].blocks@[rb].extents@,
                        j,
                    ) <==> has_used(old(self).pools@[rp].blocks@[rb].extents@, j)))
                &&& (forall|j: usize|
                    j != allocation.index && has_used(old(self).pools@[rp].blocks@[rb].extents@, j)
                        ==> used_ext(final(self).pools@[rp].blocks@[rb].extents@, j) == used_ext(
                        old(self).pools@[rp].blocks@[rb].extents@,
                        j,
                    ))
                &&& free_total(final(self).pools@[rp].blocks@[rb].extents@) == free_total(
                    old(self).pools@[rp].blocks@[rb].extents@,
                ) + old(self).region_of(allocation.index as int).size
            }),
    {
        let i = allocation.index;
        if i >= self.records.len() {
            return Err(AllocError::InvalidUsage);
        }
        let rec = self.records[i];
        match rec.state {
            AllocState::Freed => Err(AllocError::InvalidUsage),
            AllocState::Lost => {
                let rec2 = AllocRecord { state: AllocState::Freed, ..rec };
                self.records.set(i, rec2);
                proof {
                    assert forall|j: int|
                        0 <= j < self.records@.len() && (#[trigger] self.records@[j]).state
                            == AllocState::Live implies self.linked(j) by {
                        assert(old(self).linked(j));
                    }
                }
                Ok(())
            },
            AllocState::Live => {
                self.release_record(i, AllocState::Freed);
                Ok(())
            },
        }
    }

    /// Create an allocation that is lost from the start (for tests and
    /// placeholders): it owns no memory and fails any touch.
    pub fn create_lost_allocation(&mut self) -> (a: Allocation)
        requires
            old(self).wf(),
        ensures
            final(self).wf(),
            a.index == old(self).records@.len(),
            final(self).records@ == old(self).records@.push(
                AllocRecord {
                    state: AllocState::Lost,
                    pool: 0,
                    block: 0,
                    may_lose: true,
                    last_frame: old(self).current_frame,
                    user_data: 0,
                    map_count: 0,
                },
            ),
            final(self).pools@ == old(self).pools@,
    {
        let a = Allocation { index: self.records.len() };
        self.records.push(
            AllocRecord {
                state: AllocState::Lost,
                pool: 0,
                block: 0,
                may_lose: true,
                last_frame: self.current_frame,
                user_data: 0,
                map_count: 0,
            },
        );
        proof {
            assert forall|q: int|
                0 <= q < self.pools@.len() implies (#[trigger] self.pools@[q]).inv(
                self.records@.len() as int,
            ) by {
                assert(old(self).pools@[q].inv(old(self).records@.len() as int));
            }
            assert forall|j: int|
                0 <= j < self.records@.len() && (#[trigger] self.records@[j]).state
                    == AllocState::Live implies self.linked(j) by {
                assert(old(self).linked(j));
            }
        }
        a
    }

    /// What is known of one allocation: its memory type, placement,
    /// geometry, user word and lost flag. A lost allocation reports no
    /// placement.
    pub fn get_allocation_info(&self, allocation: &Allocation) -> (r: Result<
        AllocationInfo,
        AllocError,
    >)
        requires
            self.wf(),
        ensures
            r.is_ok() <==> allocation.index < self.records@.len() && self.records@[
                allocation.index as int
            ].state != AllocState::Freed,
            r matches Err(e) ==> e == AllocError::InvalidUsage,
            r matches Ok(info) ==> ({
                let rec = self.records@[allocation.index as int];
                &&& info.user_data == rec.user_data
                &&& info.lost == (rec.state == AllocState::Lost)
                &&& (rec.state == AllocState::Live ==> info.pool == rec.pool && info.block
                    == rec.block && info.memory_type == self.pools@[rec.pool as int].memory_type
                    && info.offset == self.region_of(allocation.index as int).user_off
                    && info.size == self.region_of(allocation.index as int).user_size)
            }),
    {
        let i = allocation.index;
        if i >= self.records.len() {
            return Err(AllocError::InvalidUsage);
        }
        let rec = self.records[i];
        match rec.state {
            AllocState::Freed => Err(AllocError::InvalidUsage),
            AllocState::Lost => Ok(
                AllocationInfo {
                    memory_type: 0,
                    pool: rec.pool,
                    block: rec.block,
                    offset: 0,
                    size: 0,
                    user_data: rec.user_data,
                    lost: true,
                },
            ),
            AllocState::Live => {
                let p = rec.pool;
                let b = rec.block;
                proof {
                    assert(self.linked(i as int));
                }
                match self.pools[p].blocks[b].find_used_ix(i) {
                    None => {
                        proof {
                            assert(false);
                        }
                        Err(AllocError::InvalidUsage)
                    },
                    Some(k) => {
                        let e = self.pools[p].blocks[b].extents[k];
                        proof {
                            lemma_used_unique(
                                self.pools@[p as int].blocks@[b as int].extents@,
                                self.pools@[p as int].blocks@[b as int].cap,
                                self.pools@[p as int].blocks@[b as int].margin,
                                i,
                            );
                        }
                        Ok(
                            AllocationInfo {
                                memory_type: self.pools[p].memory_type,
                                pool: p,
                                block: b,
                                offset: e.user_off,
                                size: e.user_size,
                                user_data: rec.user_data,
                                lost: false,
                            },
                        )
                    },
                }
            },
        }
    }

    /// Store an opaque word with an allocation.
    pub fn set_allocation_user_data(&mut self, allocation: &Allocation, user_data: usize) -> (r:
        Result<(), AllocError>)
        requires
            old(self).wf(),
        ensures
            final(self).wf(),
            r.is_ok() <==> allocation.index < old(self).records@.len() && old(self).records@[
                allocation.index as int
            ].state != AllocState::Freed,
            r matches Err(e) ==> e == AllocError::InvalidUsage && *final(self) == *old(self),
            r.is_ok() ==> final(self).records@ == old(self).records@.update(
                allocation.index as int,
                AllocRecord {
                    user_data,
                    ..old(self).records@[allocation.index as int]
                },
            ) && final(self).pools@ == old(self).pools@,
    {
        let i = allocation.index;
        if i >= self.records.len() {
            return Err(AllocError::InvalidUsage);
        }
        let rec = self.records[i];
        if matches!(rec.state, AllocState::Freed) {
            return Err(AllocError::InvalidUsage);
        }
        let rec2 = AllocRecord { user_data, ..rec };
        self.records.set(i, rec2);
        proof {
            assert forall|j: int|
                0 <= j < self.records@.len() && (#[trigger] self.records@[j]).state
                    == AllocState::Live implies self.linked(j) by {
                assert(old(self).linked(j));
            }
        }
        Ok(())
    }

    /// Allowed by the compatibility mask: the type's bit is set.
    pub open spec fn type_allowed(type_bits: u32, t: int) -> bool {
        0 <= t < 32 && (type_bits >> (t as u32)) & 1 == 1
    }

    /// A type the request may use: allowed by the mask and carrying every
    /// required property flag.
    pub open spec fn type_candidate(
        types: Seq<MemoryType>,
        type_bits: u32,
        required: u32,
        t: int,
    ) -> bool {
        &&& 0 <= t < types.len()
        &&& Self::type_allowed(type_bits, t)
        &&& types[t].property_flags & required == required
    }

    /// How many of the preferred property bits the type carries.
    pub open spec fn type_score(types: Seq<MemoryType>, preferred: u32, t: int) -> int {
        pop_below(types[t].property_flags & preferred, 32)
    }

    /// Strict selection order: more matching preferred bits wins, then the
    /// smaller heap, then the smaller index — so small objects are biased
    /// away from large device-local heaps when a cheaper type is as good.
    pub open spec fn type_better(
        types: Seq<MemoryType>,
        heaps: Seq<usize>,
        preferred: u32,
        a: int,
        b: int,
    ) -> bool {
        let sa = Self::type_score(types, preferred, a);
        let sb = Self::type_score(types, preferred, b);
        let ha = heaps[types[a].heap_index as int] as int;
        let hb = heaps[types[b].heap_index as int] as int;
        sa > sb || (sa == sb && (ha < hb || (ha == hb && a < b)))
    }

    /// The best memory type for the request: among the types permitted by
    /// `type_bits` that carry every `required` bit, the one with the most
    /// matching `preferred` bits; ties go to the smallest heap, then the
    /// smallest index.
    pub fn find_memory_type_index(&self, type_bits: u32, required: u32, preferred: u32) -> (r:
        Option<usize>)
        requires
            self.wf(),
        ensures
            r matches Some(t) ==> Self::type_candidate(
                self.memory_types@,
                type_bits,
                required,
                t as int,
            ) && (forall|j: int|
                Self::type_candidate(self.memory_types@, type_bits, required, j) && j != t
                    ==> Self::type_better(
                    self.memory_types@,
                    self.heap_sizes@,
                    preferred,
                    t as int,
                    j,
                )),
            r.is_none() ==> (forall|j: int|
                !Self::type_candidate(self.memory_types@, type_bits, required, j)),
    {
        let n = self.memory_types.len();
        let mut t: usize = 0;
        let mut best: Option<usize> = None;
        let mut best_score: u32 = 0;
        let mut best_heap: usize = 0;
        while t < n
            invariant
                self.wf(),
                n == self.memory_types@.len(),
                0 <= t <= n,
                best.is_none() ==> (forall|j: int|
                    0 <= j < t ==> !Self::type_candidate(
                        self.memory_types@,
                        type_bits,
                        required,
                        j,
                    )),
                best matches Some(bt) ==> ({
                    &&& 0 <= bt < t
                    &&& Self::type_candidate(self.memory_types@, type_bits, required, bt as int)
                    &&& best_score == Self::type_score(self.memory_types@, preferred, bt as int)
                    &&& best_heap == self.heap_sizes@[self.memory_types@[
                        bt as int
                    ].heap_index as int]
                    &&& (forall|j: int|
                        0 <= j < t && Self::type_candidate(
                            self.memory_types@,
                            type_bits,
                            required,
                            j,
                        ) && j != bt ==> Self::type_better(
                            self.memory_types@,
                            self.heap_sizes@,
                            preferred,
                            bt as int,
                            j,
                        ))
                }),
            decreases n - t,
        {
            let allowed = t < 32 && (type_bits >> (t as u32)) & 1 == 1;
            if allowed && self.memory_types[t].property_flags & required == required {
                let score = popcount(self.memory_types[t].property_flags & preferred);
                let heap = self.heap_sizes[self.memory_types[t].heap_index];
                let take = match best {
                    None => true,
                    Some(_) => score > best_score || (score == best_score && heap < best_heap),
                };
                if take {
                    best = Some(t);
                    best_score = score;
                    best_heap = heap;
                }
            }
            t += 1;
        }
        best
    }

    /// Allocate memory for an object with the given requirements and
    /// hints: pick the memory type and pool, try the pool's blocks, grow
    /// the pool when the request would fit a fresh block, and as a last
    /// resort evict aged lost-eligible allocations and retry once. Returns
    /// the handle and how many allocations were evicted for it.
    #[verifier::spinoff_prover]
    #[verifier::rlimit(100)]
    pub fn allocate_memory(
        &mut self,
        requirements: &MemoryRequirements,
        create_info: &AllocationCreateInfo,
    ) -> (r: Result<(Allocation, usize), AllocError>)
        requires
            old(self).wf(),
        ensures
            final(self).wf(),
            final(self).heap_sizes@ == old(self).heap_sizes@,
            final(self).memory_types@ == old(self).memory_types@,
            final(self).current_frame == old(self).current_frame,
            final(self).frame_in_use_count == old(self).frame_in_use_count,
            final(self).pools@.len() == old(self).pools@.len(),
            (create_info.flags & ALLOCATION_CREATE_NEVER_ALLOCATE) != 0 ==> (forall|q: int|
                0 <= q < old(self).pools@.len() ==> (#[trigger] final(self).pools@[q]).blocks@.len()
                    == old(self).pools@[q].blocks@.len()),
            r matches Ok((a, ev)) ==> ({
                &&& final(self).records@.len() == old(self).records@.len() + 1
                &&& a.index == old(self).records@.len()
                &&& final(self).records@[a.index as int].state == AllocState::Live
                &&& final(self).records@[a.index as int].may_lose == ((create_info.flags
                    & ALLOCATION_CREATE_CAN_BECOME_LOST) != 0)
                &&& final(self).records@[a.index as int].user_data == create_info.user_data
                &&& final(self).records@[a.index as int].last_frame == old(self).current_frame
                &&& final(self).records@[a.index as int].map_count == (if (create_info.flags
                    & ALLOCATION_CREATE_MAPPED) != 0 {
                    1int
                } else {
                    0int
                })
                &&& final(self).linked(a.index as int)
                &&& final(self).region_of(a.index as int).user_size == requirements.size
                &&& final(self).region_of(a.index as int).user_off as int
                    % requirements.alignment as int == 0
                &&& (ev > 0 ==> (create_info.flags & ALLOCATION_CREATE_CAN_MAKE_OTHER_LOST) != 0)
                &&& (create_info.pool matches Some(h) ==> final(self).records@[
                    a.index as int
                ].pool == h.index)
                &&& (forall|i: int|
                    0 <= i < old(self).records@.len() ==> final(self).records@[i] == old(self).records@[i] || (final(self).records@[i] == lost_of(old(self).records@[i])
                        && evictable_rec(
                        old(self).records@[i],
                        old(self).current_frame,
                        old(self).frame_in_use_count,
                    ) && old(self).records@[i].pool == final(self).records@[a.index as int].pool))
                &&& (ev == 0 ==> forall|i: int|
                    0 <= i < old(self).records@.len() ==> final(self).records@[i] == old(self).records@[i])
            }),
            r matches Ok((a, ev)) ==> (create_info.pool.is_none() ==> ({
                let t = final(self).records@[a.index as int].pool as int;
                &&& Self::type_candidate(
                    old(self).memory_types@,
                    effective_type_bits(*requirements, *create_info),
                    effective_required(*create_info),
                    t,
                )
                &&& (forall|j: int|
                    Self::type_candidate(
                        old(self).memory_types@,
                        effective_type_bits(*requirements, *create_info),
                        effective_required(*create_info),
                        j,
                    ) && j != t ==> Self::type_better(
                        old(self).memory_types@,
                        old(self).heap_sizes@,
                        effective_preferred(*create_info),
                        t,
                        j,
                    ))
            })),
            r matches Ok((a, ev)) ==> (ev == 0 ==> ({
                let p2 = final(self).records@[a.index as int].pool as int;
                let b2 = final(self).records@[a.index as int].block as int;
                let post = final(self).pools@[p2].blocks@[b2].extents@;
                &&& (forall|q: int|
                    0 <= q < old(self).pools@.len() && q != p2 ==> final(self).pools@[q] == old(self).pools@[q])
                &&& old(self).pools@[p2].blocks@.len() <= final(self).pools@[p2].blocks@.len()
                    <= old(self).pools@[p2].blocks@.len() + 1
                &&& (forall|bb: int|
                    0 <= bb && bb < old(self).pools@[p2].blocks@.len() && bb != b2 ==> final(self).pools@[p2].blocks@[bb] == old(self).pools@[p2].blocks@[bb])
                &&& (b2 < old(self).pools@[p2].blocks@.len() ==> (exists|i: int|
                    picked(
                        old(self).pools@[p2].blocks@[b2].extents@,
                        i,
                        requirements.size,
                        requirements.alignment,
                        old(self).pools@[p2].margin,
                        strategy_of(create_info.flags),
                    ) && post == place_in(
                        old(self).pools@[p2].blocks@[b2].extents@,
                        i,
                        requirements.size,
                        requirements.alignment,
                        old(self).pools@[p2].margin,
                        a.index,
                    )))
                &&& (b2 >= old(self).pools@[p2].blocks@.len() ==> b2 == old(self).pools@[p2].blocks@.len() && (exists|i: int, bs: int|
                    bs >= 1 && picked(
                        seq![free_ext(0, bs)],
                        i,
                        requirements.size,
                        requirements.alignment,
                        old(self).pools@[p2].margin,
                        strategy_of(create_info.flags),
                    ) && post == place_in(
                        seq![free_ext(0, bs)],
                        i,
                        requirements.size,
                        requirements.alignment,
                        old(self).pools@[p2].margin,
                        a.index,
                    )))
                &&& ((create_info.flags & ALLOCATION_CREATE_DEDICATED_MEMORY) == 0
                    && Self::pool_has_fit(
                    old(self).pools@[p2],
                    requirements.size,
                    requirements.alignment,
                ) ==> final(self).pools@[p2].blocks@.len() == old(self).pools@[p2].blocks@.len())
                &&& (final(self).pools@[p2].blocks@.len() == old(self).pools@[p2].blocks@.len()
                    ==> final(self).heap_used@ == old(self).heap_used@)
            })),
            r matches Ok((a, ev)) ==> ((create_info.flags & ALLOCATION_CREATE_DEDICATED_MEMORY)
                != 0 ==> ({
                let p2 = final(self).records@[a.index as int].pool as int;
                let b2 = final(self).records@[a.index as int].block as int;
                used_count(final(self).pools@[p2].blocks@[b2].extents@) == 1
            })),
            r matches Err(e) ==> final(self).records@.len() == old(self).records@.len() && (e
                == AllocError::InvalidUsage || e == AllocError::NoCompatibleMemoryType || e
                == AllocError::DeviceOutOfMemory),
            r matches Err(e) && e == AllocError::InvalidUsage ==> *final(self) == *old(self),
            r matches Err(e) && e == AllocError::NoCompatibleMemoryType ==> *final(self) == *old(self) && create_info.pool.is_none() && (forall|j: int|
                !Self::type_candidate(
                    old(self).memory_types@,
                    effective_type_bits(*requirements, *create_info),
                    effective_required(*create_info),
                    j,
                )),
            r matches Err(e) && e == AllocError::DeviceOutOfMemory && (create_info.flags
                & ALLOCATION_CREATE_CAN_MAKE_OTHER_LOST) == 0 ==> *final(self) == *old(self),
            r matches Err(e) && e == AllocError::DeviceOutOfMemory ==> (forall|i: int|
                0 <= i < old(self).records@.len() ==> final(self).records@[i] == old(self).records@[i] || (final(self).records@[i] == lost_of(old(self).records@[i])
                    && evictable_rec(
                    old(self).records@[i],
                    old(self).current_frame,
                    old(self).frame_in_use_count,
                ))),
            r matches Err(e) ==> ((e == AllocError::DeviceOutOfMemory && (create_info.flags
                & ALLOCATION_CREATE_CAN_MAKE_OTHER_LOST) != 0 && (create_info.flags
                & ALLOCATION_CREATE_DEDICATED_MEMORY) == 0) ==> (create_info.pool matches Some(h)
                ==> !Self::pool_has_fit(
                final(self).pools@[h.index as int],
                requirements.size,
                requirements.alignment,
            ) && (forall|i: int|
                0 <= i < final(self).records@.len() ==> !((#[trigger] final(self).records@[
                    i
                ]).pool == h.index && evictable_rec(
                    final(self).records@[i],
                    final(self).current_frame,
                    final(self).frame_in_use_count,
                ))))),
            ({
                &&& requirements.size >= 1
                &&& requirements.alignment >= 1
                &&& (create_info.flags & ALLOCATION_CREATE_DEDICATED_MEMORY) == 0
                &&& (create_info.flags & ALLOCATION_CREATE_MAPPED) == 0
                &&& (create_info.pool matches Some(h) && h.index < old(self).pools@.len() && old(self).pools@[h.index as int].alive && Self::pool_has_fit(
                    old(self).pools@[h.index as int],
                    requirements.size,
                    requirements.alignment,
                ))
            }) ==> r.is_ok(),
    {
        if requirements.size < 1 || requirements.alignment < 1 {
            return Err(AllocError::InvalidUsage);
        }
        let dedicated = (create_info.flags & ALLOCATION_CREATE_DEDICATED_MEMORY) != 0;
        let never = (create_info.flags & ALLOCATION_CREATE_NEVER_ALLOCATE) != 0;
        let mapped = (create_info.flags & ALLOCATION_CREATE_MAPPED) != 0;
        if dedicated && never {
            return Err(AllocError::InvalidUsage);
        }
        let eff_required = create_info.required_flags | usage_required_flags(&create_info.usage);
        let eff_preferred = create_info.preferred_flags | usage_preferred_flags(
            &create_info.usage,
        );
        let p: usize;
        match create_info.pool {
            Some(h) => {
                if h.index >= self.pools.len() || !self.pools[h.index].alive {
                    return Err(AllocError::InvalidUsage);
                }
                p = h.index;
            },
            None => {
                let bits = if create_info.memory_type_bits != 0 {
                    requirements.memory_type_bits & create_info.memory_type_bits
                } else {
                    requirements.memory_type_bits
                };
                proof {
                    assert(bits == effective_type_bits(*requirements, *create_info));
                    assert(eff_required == effective_required(*create_info));
                    assert(eff_preferred == effective_preferred(*create_info));
                }
                match self.find_memory_type_index(bits, eff_required, eff_preferred) {
                    Some(t) => {
                        p = t;
                    },
                    None => {
                        return Err(AllocError::NoCompatibleMemoryType);
                    },
                }
            },
        }
        // A request asking to be mapped needs a host-visible memory type.
        if mapped {
            let t = self.pools[p].memory_type;
            proof {
                assert(self.pools@[p as int].memory_type < self.memory_types@.len());
            }
            if self.memory_types[t].property_flags & MEMORY_PROPERTY_HOST_VISIBLE == 0 {
                return Err(AllocError::InvalidUsage);
            }
        }
        let strat = if create_info.flags & ALLOCATION_CREATE_STRATEGY_WORST_FIT != 0 {
            Strategy::WorstFit
        } else if create_info.flags & ALLOCATION_CREATE_STRATEGY_FIRST_FIT != 0 {
            Strategy::FirstFit
        } else {
            Strategy::BestFit
        };
        proof {
            assert(strat == strategy_of(create_info.flags));
        }
        let may_lose = (create_info.flags & ALLOCATION_CREATE_CAN_BECOME_LOST) != 0;
        let can_evict = (create_info.flags & ALLOCATION_CREATE_CAN_MAKE_OTHER_LOST) != 0;
        let usz = requirements.size;
        let align = requirements.alignment;
        if dedicated {
            return self.allocate_dedicated(
                p,
                usz,
                align,
                strat,
                may_lose,
                create_info.user_data,
                mapped,
            );
        }
        self.allocate_in(p, usz, align, strat, may_lose, create_info.user_data, mapped, never, can_evict)
    }

    /// The paged allocation path inside one pool: try the existing blocks,
    /// grow when a fresh block would hold the request, then evict aged
    /// lost-eligible allocations of the pool and retry once.
    #[verifier::spinoff_prover]
    #[verifier::rlimit(100)]
    fn allocate_in(
        &mut self,
        p: usize,
        usz: usize,
        align: usize,
        strat: Strategy,
        may_lose: bool,
        user_data: usize,
        mapped: bool,
        never: bool,
        can_evict: bool,
    ) -> (r: Result<(Allocation, usize), AllocError>)
        requires
            old(self).wf(),
            p < old(self).pools@.len(),
            old(self).pools@[p as int].alive,
            usz >= 1,
            align >= 1,
        ensures
            final(self).wf(),
            final(self).heap_sizes@ == old(self).heap_sizes@,
            final(self).memory_types@ == old(self).memory_types@,
            final(self).current_frame == old(self).current_frame,
            final(self).frame_in_use_count == old(self).frame_in_use_count,
            final(self).pools@.len() == old(self).pools@.len(),
            never ==> (forall|q: int|
                0 <= q < old(self).pools@.len() ==> (#[trigger] final(self).pools@[q]).blocks@.len()
                    == old(self).pools@[q].blocks@.len()),
            r matches Ok((a, ev)) ==> ({
                &&& final(self).records@.len() == old(self).records@.len() + 1
                &&& a.index == old(self).records@.len()
                &&& final(self).records@[a.index as int].state == AllocState::Live
                &&& final(self).records@[a.index as int].pool == p
                &&& final(self).records@[a.index as int].may_lose == may_lose
                &&& final(self).records@[a.index as int].user_data == user_data
                &&& final(self).records@[a.index as int].last_frame == old(self).current_frame
                &&& final(self).records@[a.index as int].map_count == (if mapped {
                    1int
                } else {
                    0int
                })
                &&& final(self).linked(a.index as int)
                &&& final(self).region_of(a.index as int).user_size == usz
                &&& final(self).region_of(a.index as int).user_off as int % align as int == 0
                &&& (ev > 0 ==> can_evict)
                &&& (forall|i: int|
                    0 <= i < old(self).records@.len() ==> final(self).records@[i] == old(self).records@[i] || (final(self).records@[i] == lost_of(old(self).records@[i])
                        && evictable_rec(
                        old(self).records@[i],
                        old(self).current_frame,
                        old(self).frame_in_use_count,
                    ) && old(self).records@[i].pool == p))
                &&& (ev == 0 ==> (forall|i: int|
                    0 <= i < old(self).records@.len() ==> final(self).records@[i] == old(self).records@[i]))
                &&& (ev == 0 ==> ({
                    let b2 = final(self).records@[a.index as int].block as int;
                    let post = final(self).pools@[p as int].blocks@[b2].extents@;
                    &&& (forall|q: int|
                        0 <= q < old(self).pools@.len() && q != p ==> final(self).pools@[q]
                            == old(self).pools@[q])
                    &&& old(self).pools@[p as int].blocks@.len() <= final(self).pools@[
                        p as int
                    ].blocks@.len() <= old(self).pools@[p as int].blocks@.len() + 1
                    &&& (forall|bb: int|
                        0 <= bb && bb < old(self).pools@[p as int].blocks@.len() && bb != b2
                            ==> final(self).pools@[p as int].blocks@[bb] == old(self).pools@[p as int].blocks@[bb])
                    &&& (b2 < old(self).pools@[p as int].blocks@.len() ==> (exists|i: int|
                        picked(
                            old(self).pools@[p as int].blocks@[b2].extents@,
                            i,
                            usz,
                            align,
                            old(self).pools@[p as int].margin,
                            strat,
                        ) && post == place_in(
                            old(self).pools@[p as int].blocks@[b2].extents@,
                            i,
                            usz,
                            align,
                            old(self).pools@[p as int].margin,
                            a.index,
                        )))
                    &&& (b2 >= old(self).pools@[p as int].blocks@.len() ==> b2 == old(self).pools@[p as int].blocks@.len() && (exists|i: int, bs: int|
                        bs >= 1 && picked(
                            seq![free_ext(0, bs)],
                            i,
                            usz,
                            align,
                            old(self).pools@[p as int].margin,
                            strat,
                        ) && post == place_in(
                            seq![free_ext(0, bs)],
                            i,
                            usz,
                            align,
                            old(self).pools@[p as int].margin,
                            a.index,
                        )))
                    &&& (Self::pool_has_fit(old(self).pools@[p as int], usz, align) ==> final(self).pools@[p as int].blocks@.len() == old(self).pools@[p as int].blocks@.len())
                    &&& (final(self).pools@[p as int].blocks@.len() == old(self).pools@[
                        p as int
                    ].blocks@.len() ==> final(self).heap_used@ == old(self).heap_used@)
                }))
            }),
            r matches Err(e) ==> e == AllocError::DeviceOutOfMemory && final(self).records@.len() == old(self).records@.len(),
            r.is_err() && !can_evict ==> *final(self) == *old(self),
            r.is_err() ==> (forall|i: int|
                0 <= i < old(self).records@.len() ==> final(self).records@[i] == old(self).records@[i] || (final(self).records@[i] == lost_of(old(self).records@[i])
                    && evictable_rec(
                    old(self).records@[i],
                    old(self).current_frame,
                    old(self).frame_in_use_count,
                ))),
            r.is_err() && can_evict ==> !Self::pool_has_fit(final(self).pools@[p as int], usz, align)
                && (forall|i: int|
                0 <= i < final(self).records@.len() ==> !((#[trigger] final(self).records@[
                    i
                ]).pool == p && evictable_rec(
                    final(self).records@[i],
                    final(self).current_frame,
                    final(self).frame_in_use_count,
                ))),
            Self::pool_has_fit(old(self).pools@[p as int], usz, align) ==> r.is_ok(),
    {
        match self.try_allocate_in_pool(p, usz, align, strat, may_lose, user_data, mapped) {
            Some(a) => {
                return Ok((a, 0));
            },
            None => {},
        }
        let m128: u128 = self.pools[p].margin as u128;
        let a128: u128 = align as u128;
        let q0: u128 = (m128 + a128 - 1) / a128;
        proof {
            vstd::arithmetic::div_mod::lemma_fundamental_div_mod(
                (m128 + a128 - 1) as int,
                a128 as int,
            );
            vstd::arithmetic::mul::lemma_mul_is_commutative(a128 as int, q0 as int);
            crate::suballoc::lemma_align_up(self.pools@[p as int].margin as int, align as int);
        }
        let span128: u128 = q0 * a128 + usz as u128 + m128;
        if !never && span128 <= self.pools[p].block_size as u128 {
            let bs = self.pools[p].block_size;
            match self.grow_pool(p, bs) {
                Some(_b) => {
                    match self.try_allocate_in_pool(
                        p,
                        usz,
                        align,
                        strat,
                        may_lose,
                        user_data,
                        mapped,
                    ) {
                        Some(a) => {
                            return Ok((a, 0));
                        },
                        None => {
                            proof {
                                assert(can_place(
                                    seq![free_ext(0, bs as int)][0],
                                    usz,
                                    align,
                                    self.pools@[p as int].margin,
                                ));
                                assert(false);
                            }
                        },
                    }
                },
                None => {},
            }
        }
        if can_evict {
            let handle = AllocatorPool { index: p };
            let evicted = match self.make_pool_allocations_lost(&handle) {
                Ok(c) => c,
                Err(_) => {
                    proof {
                        assert(false);
                    }
                    0
                },
            };
            match self.try_allocate_in_pool(p, usz, align, strat, may_lose, user_data, mapped) {
                Some(a) => {
                    return Ok((a, evicted));
                },
                None => {},
            }
        }
        Err(AllocError::DeviceOutOfMemory)
    }

    /// The dedicated path: a fresh block sized to the request backs this
    /// allocation alone.
    #[verifier::spinoff_prover]
    #[verifier::rlimit(100)]
    fn allocate_dedicated(
        &mut self,
        p: usize,
        usz: usize,
        align: usize,
        strat: Strategy,
        may_lose: bool,
        user_data: usize,
        mapped: bool,
    ) -> (r: Result<(Allocation, usize), AllocError>)
        requires
            old(self).wf(),
            p < old(self).pools@.len(),
            old(self).pools@[p as int].alive,
            usz >= 1,
            align >= 1,
        ensures
            final(self).wf(),
            final(self).heap_sizes@ == old(self).heap_sizes@,
            final(self).memory_types@ == old(self).memory_types@,
            final(self).current_frame == old(self).current_frame,
            final(self).frame_in_use_count == old(self).frame_in_use_count,
            final(self).pools@.len() == old(self).pools@.len(),
            r.is_err() ==> *final(self) == *old(self) && r == Err::<(Allocation, usize), AllocError>(
                AllocError::DeviceOutOfMemory,
            ),
            r matches Ok((a, ev)) ==> ({
                &&& ev == 0
                &&& final(self).records@.len() == old(self).records@.len() + 1
                &&& a.index == old(self).records@.len()
                &&& (forall|i: int|
                    0 <= i < old(self).records@.len() ==> final(self).records@[i] == old(self).records@[i])
                &&& final(self).records@[a.index as int].state == AllocState::Live
                &&& final(self).records@[a.index as int].pool == p
                &&& final(self).records@[a.index as int].may_lose == may_lose
                &&& final(self).records@[a.index as int].user_data == user_data
                &&& final(self).records@[a.index as int].last_frame == old(self).current_frame
                &&& final(self).records@[a.index as int].map_count == (if mapped {
                    1int
                } else {
                    0int
                })
                &&& final(self).linked(a.index as int)
                &&& final(self).region_of(a.index as int).user_size == usz
                &&& final(self).region_of(a.index as int).user_off as int % align as int == 0
                &&& (forall|q: int|
                    0 <= q < old(self).pools@.len() && q != p ==> final(self).pools@[q] == old(self).pools@[q])
                &&& final(self).records@[a.index as int].block == old(self).pools@[
                    p as int
                ].blocks@.len()
                &&& final(self).pools@[p as int].blocks@.len() == old(self).pools@[
                    p as int
                ].blocks@.len() + 1
                &&& (forall|bb: int|
                    0 <= bb && bb < old(self).pools@[p as int].blocks@.len() ==> final(self).pools@[p as int].blocks@[bb] == old(self).pools@[p as int].blocks@[bb])
                &&& used_count(
                    final(self).pools@[p as int].blocks@[final(self).records@[
                        a.index as int
                    ].block as int].extents@,
                ) == 1
                &&& (exists|i: int, bs: int|
                    bs >= 1 && picked(
                        seq![free_ext(0, bs)],
                        i,
                        usz,
                        align,
                        old(self).pools@[p as int].margin,
                        strat,
                    ) && final(self).pools@[p as int].blocks@[final(self).records@[
                        a.index as int
                    ].block as int].extents@ == place_in(
                        seq![free_ext(0, bs)],
                        i,
                        usz,
                        align,
                        old(self).pools@[p as int].margin,
                        a.index,
                    ))
            }),
    {
        let m128: u128 = self.pools[p].margin as u128;
        let a128: u128 = align as u128;
        let q0: u128 = (m128 + a128 - 1) / a128;
        proof {
            vstd::arithmetic::div_mod::lemma_fundamental_div_mod(
                (m128 + a128 - 1) as int,
                a128 as int,
            );
            vstd::arithmetic::mul::lemma_mul_is_commutative(a128 as int, q0 as int);
            crate::suballoc::lemma_align_up(self.pools@[p as int].margin as int, align as int);
        }
        let span128: u128 = q0 * a128 + usz as u128 + m128;
        if span128 > usize::MAX as u128 {
            return Err(AllocError::DeviceOutOfMemory);
        }
        let span: usize = span128 as usize;
        let id = self.records.len();
        match self.grow_pool(p, span) {
            None => Err(AllocError::DeviceOutOfMemory),
            Some(b) => {
                let ghost fresh = seq![free_ext(0, span as int)];
                proof {
                    assert(can_place(fresh[0], usz, align, self.pools@[p as int].margin));
                    lemma_singleton(fresh[0]);
                }
                self.place_block_region(p, b, usz, align, strat, id, mapped);
                proof {
                    lemma_used_unique(
                        self.pools@[p as int].blocks@[b as int].extents@,
                        self.pools@[p as int].blocks@[b as int].cap,
                        self.pools@[p as int].blocks@[b as int].margin,
                        id as usize,
                    );
                }
                let a = self.push_record(
                    p,
                    b,
                    may_lose,
                    user_data,
                    if mapped {
                        1
                    } else {
                        0
                    },
                );
                Ok((a, 0))
            },
        }
    }
}

/// The effective type-compatibility mask of a request: the object's own
/// mask, narrowed by the request's when that one is non-zero.
pub open spec fn effective_type_bits(req: MemoryRequirements, info: AllocationCreateInfo) -> u32 {
    if info.memory_type_bits != 0 {
        req.memory_type_bits & info.memory_type_bits
    } else {
        req.memory_type_bits
    }
}

/// The property flags a request demands: its own plus what its usage hint
/// demands.
pub open spec fn effective_required(info: AllocationCreateInfo) -> u32 {
    info.required_flags | usage_required(info.usage)
}

/// The property flags a request prefers: its own plus what its usage hint
/// suggests.
pub open spec fn effective_preferred(info: AllocationCreateInfo) -> u32 {
    info.preferred_flags | usage_preferred(info.usage)
}

/// The fit strategy a request's flag bits select.
pub open spec fn strategy_of(flags: u32) -> Strategy {
    if flags & ALLOCATION_CREATE_STRATEGY_WORST_FIT != 0 {
        Strategy::WorstFit
    } else if flags & ALLOCATION_CREATE_STRATEGY_FIRST_FIT != 0 {
        Strategy::FirstFit
    } else {
        Strategy::BestFit
    }
}

/// The required flags a usage hint adds.
pub fn usage_required_flags(u: &MemoryUsage) -> (r: u32)
    ensures
        r == usage_required(*u),
{
    match u {
        MemoryUsage::Unknown => 0,
        MemoryUsage::GpuOnly => 0,
        MemoryUsage::CpuOnly => MEMORY_PROPERTY_HOST_VISIBLE | MEMORY_PROPERTY_HOST_COHERENT,
        MemoryUsage::CpuToGpu => MEMORY_PROPERTY_HOST_VISIBLE,
        MemoryUsage::GpuToCpu => MEMORY_PROPERTY_HOST_VISIBLE,
    }
}

/// The preferred flags a usage hint adds.
pub fn usage_preferred_flags(u: &MemoryUsage) -> (r: u32)
    ensures
        r == usage_preferred(*u),
{
    match u {
        MemoryUsage::Unknown => 0,
        MemoryUsage::GpuOnly => MEMORY_PROPERTY_DEVICE_LOCAL,
        MemoryUsage::CpuOnly => 0,
        MemoryUsage::CpuToGpu => MEMORY_PROPERTY_DEVICE_LOCAL,
        MemoryUsage::GpuToCpu => MEMORY_PROPERTY_HOST_COHERENT | MEMORY_PROPERTY_HOST_CACHED,
    }
}

/// Number of set bits of `x` below bit `n`.
pub open spec fn pop_below(x: u32, n: int) -> int
    decreases n,
{
    if n <= 0 {
        0
    } else {
        pop_below(x, n - 1) + if (x >> ((n - 1) as u32)) & 1 == 1 {
            1int
        } else {
            0int
        }
    }
}

/// Set bits of `x`.
pub fn popcount(x: u32) -> (r: u32)
    ensures
        r == pop_below(x, 32),
{
    let mut acc: u32 = 0;
    let mut i: u32 = 0;
    while i < 32
        invariant
            0 <= i <= 32,
            acc == pop_below(x, i as int),
            acc <= i,
        decreases 32 - i,
    {
        let bit = (x >> i) & 1;
        proof {
            assert((x >> i) & 1 <= 1) by (bit_vector);
        }
        acc = acc + bit;
        i += 1;
    }
    acc
}

/// Required property flags a usage hint demands.
pub open spec fn usage_required(u: MemoryUsage) -> u32 {
    match u {
        MemoryUsage::Unknown => 0u32,
        MemoryUsage::GpuOnly => 0u32,
        MemoryUsage::CpuOnly => MEMORY_PROPERTY_HOST_VISIBLE | MEMORY_PROPERTY_HOST_COHERENT,
        MemoryUsage::CpuToGpu => MEMORY_PROPERTY_HOST_VISIBLE,
        MemoryUsage::GpuToCpu => MEMORY_PROPERTY_HOST_VISIBLE,
    }
}

/// Preferred property flags a usage hint suggests.
pub open spec fn usage_preferred(u: MemoryUsage) -> u32 {
    match u {
        MemoryUsage::Unknown => 0u32,
        MemoryUsage::GpuOnly => MEMORY_PROPERTY_DEVICE_LOCAL,
        MemoryUsage::CpuOnly => 0u32,
        MemoryUsage::CpuToGpu => MEMORY_PROPERTY_DEVICE_LOCAL,
        MemoryUsage::GpuToCpu => MEMORY_PROPERTY_HOST_COHERENT | MEMORY_PROPERTY_HOST_CACHED,
    }
}

/// Whether a touch succeeds on a record in this state: only a live
/// allocation can be renewed.
pub open spec fn touch_succeeds(r: AllocRecord) -> bool {
    r.state == AllocState::Live
}

/// The lost-allocation state machine's gate: an allocation flagged
/// may-become-lost that has not been touched for more than the threshold is
/// evictable; once evicted it is `Lost`, and a touch on it fails — it must
/// be recreated, never resurrected.
pub proof fn lemma_lost_allocation_lifecycle(r: AllocRecord, frame: u32, threshold: u32)
    requires
        r.state == AllocState::Live,
        r.may_lose,
        r.last_frame + threshold < frame,
    ensures
        evictable_rec(r, frame, threshold),
        lost_of(r).state == AllocState::Lost,
        !touch_succeeds(lost_of(r)),
{
}

} // verus!
