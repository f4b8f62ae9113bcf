//! Plain-value types of the engine's public surface: usage hints, creation
//! flags, error taxonomy, handles and statistics records.

use vstd::prelude::*;

verus! {

/// Usage hint for an allocation: where the memory will mostly be accessed.
#[derive(Debug, Clone, PartialEq, Eq, Structural)]
pub enum MemoryUsage {
    Unknown,
    GpuOnly,
    CpuOnly,
    CpuToGpu,
    GpuToCpu,
}

/// Bit for requesting a dedicated (whole-block) allocation.
pub const ALLOCATION_CREATE_DEDICATED_MEMORY: u32 = 0x00000001;
/// Bit forbidding creation of a new block: only existing free space may serve.
pub const ALLOCATION_CREATE_NEVER_ALLOCATE: u32 = 0x00000002;
/// Bit requesting the allocation be mapped on creation.
pub const ALLOCATION_CREATE_MAPPED: u32 = 0x00000004;
/// Bit marking the allocation as one that may be evicted ("become lost").
pub const ALLOCATION_CREATE_CAN_BECOME_LOST: u32 = 0x00000008;
/// Bit allowing this request to evict aged lost-eligible allocations.
pub const ALLOCATION_CREATE_CAN_MAKE_OTHER_LOST: u32 = 0x00000010;
/// Fit-strategy bit: prefer the smallest region that fits.
pub const ALLOCATION_CREATE_STRATEGY_BEST_FIT: u32 = 0x00010000;
/// Fit-strategy bit: prefer the largest region that fits.
pub const ALLOCATION_CREATE_STRATEGY_WORST_FIT: u32 = 0x00020000;
/// Fit-strategy bit: take the first region that fits.
pub const ALLOCATION_CREATE_STRATEGY_FIRST_FIT: u32 = 0x00040000;
/// Alias: minimizing memory is the best-fit strategy.
pub const ALLOCATION_CREATE_STRATEGY_MIN_MEMORY: u32 = 0x00010000;
/// Alias: minimizing search time is the first-fit strategy.
pub const ALLOCATION_CREATE_STRATEGY_MIN_TIME: u32 = 0x00040000;
/// Alias: minimizing fragmentation is the worst-fit strategy.
pub const ALLOCATION_CREATE_STRATEGY_MIN_FRAGMENTATION: u32 = 0x00020000;
/// Mask of all strategy bits.
pub const ALLOCATION_CREATE_STRATEGY_MASK: u32 = 0x00010000 | 0x00020000 | 0x00040000;

/// Property bit: memory local to the device.
pub const MEMORY_PROPERTY_DEVICE_LOCAL: u32 = 0x00000001;
/// Property bit: memory the host can map.
pub const MEMORY_PROPERTY_HOST_VISIBLE: u32 = 0x00000002;
/// Property bit: host writes need no explicit flush.
pub const MEMORY_PROPERTY_HOST_COHERENT: u32 = 0x00000004;
/// Property bit: host reads are cached.
pub const MEMORY_PROPERTY_HOST_CACHED: u32 = 0x00000008;

/// Errors surfaced by the engine. Internal fit failures inside one block are
/// never surfaced: they are recovered by trying another block or growing the
/// pool.
#[derive(Debug, Clone, PartialEq, Eq, Structural)]
pub enum AllocError {
    /// No memory type satisfies the compatibility mask and the required flags.
    NoCompatibleMemoryType,
    /// The device-level budget is exhausted and eviction could not help.
    DeviceOutOfMemory,
    /// A touch, map or similar was attempted on an evicted allocation.
    AllocationLost,
    /// A guard byte did not hold the expected pattern; names the offending
    /// allocation by its handle index.
    MemoryCorruptionDetected { allocation: usize },
    /// A programmer-usage error: the call violates a stated invariant.
    InvalidUsage,
}

/// One device memory type: its property flags and the heap it draws from.
#[derive(Debug, Clone, Copy, PartialEq, Eq, Structural)]
pub struct MemoryType {
    /// Property flag bits (device-local, host-visible, ...).
    pub property_flags: u32,
    /// Index into the table of heaps.
    pub heap_index: usize,
}

/// Everything the engine needs from the device, queried once at startup.
#[derive(Debug, Clone)]
pub struct AllocatorCreateInfo {
    /// Sizes of the device heaps, in bytes.
    pub heap_sizes: Vec<usize>,
    /// The device's memory types; each draws from one heap.
    pub memory_types: Vec<MemoryType>,
    /// An allocation flagged as lost-eligible becomes evictable once it has
    /// not been touched for more than this many frames.
    pub frame_in_use_count: u32,
}

/// A request's memory footprint, as reported by the driver for an object.
#[derive(Debug, Clone, PartialEq, Eq, Structural)]
pub struct MemoryRequirements {
    pub size: usize,
    pub alignment: usize,
    /// Bitmask of memory types compatible with the object.
    pub memory_type_bits: u32,
}

/// Handle to a pool created by `Allocator::create_pool`.
#[derive(Debug, Clone, Copy, PartialEq, Eq, Structural)]
pub struct AllocatorPool {
    pub index: usize,
}

/// Handle to an allocation made by `Allocator::allocate_memory`.
#[derive(Debug, Clone, Copy, PartialEq, Eq, Structural)]
pub struct Allocation {
    pub index: usize,
}

/// Parameters of one allocation request.
#[derive(Debug, Clone)]
pub struct AllocationCreateInfo {
    pub usage: MemoryUsage,
    /// `ALLOCATION_CREATE_*` bits.
    pub flags: u32,
    /// Property flags every acceptable memory type must have.
    pub required_flags: u32,
    /// Property flags that are preferred but not mandatory.
    pub preferred_flags: u32,
    /// Restricts the choice of memory types further; 0 means no restriction.
    pub memory_type_bits: u32,
    /// Allocate from this pool instead of a default per-memory-type pool.
    pub pool: Option<AllocatorPool>,
    /// Opaque word stored with the allocation.
    pub user_data: usize,
}

impl Default for AllocationCreateInfo {
    fn default() -> (r: Self)
        ensures
            r.usage == MemoryUsage::Unknown,
            r.flags == 0,
            r.required_flags == MEMORY_PROPERTY_DEVICE_LOCAL,
            r.preferred_flags == MEMORY_PROPERTY_DEVICE_LOCAL,
            r.memory_type_bits == 0,
            r.pool.is_none(),
            r.user_data == 0,
    {
        AllocationCreateInfo {
            usage: MemoryUsage::Unknown,
            flags: 0,
            required_flags: MEMORY_PROPERTY_DEVICE_LOCAL,
            preferred_flags: MEMORY_PROPERTY_DEVICE_LOCAL,
            memory_type_bits: 0,
            pool: None,
            user_data: 0,
        }
    }
}

/// Policy of a user-created pool.
#[derive(Debug, Clone)]
pub struct PoolCreateInfo {
    /// The memory type every block of this pool draws from.
    pub memory_type_index: usize,
    /// Size of each block the pool creates.
    pub block_size: usize,
    /// `maintain_pool` never frees blocks below this count.
    pub min_block_count: usize,
    /// The pool never holds more blocks than this.
    pub max_block_count: usize,
    /// Write and verify guard bytes around every sub-allocation.
    pub guarded: bool,
}

/// What `get_allocation_info` reports of one allocation.
#[derive(Debug, Clone, PartialEq, Eq, Structural)]
pub struct AllocationInfo {
    pub memory_type: usize,
    pub pool: usize,
    pub block: usize,
    /// Byte offset of the user region inside its block.
    pub offset: usize,
    pub size: usize,
    pub user_data: usize,
    pub lost: bool,
}

/// Statistics over one pool (or over everything, for `calculate_stats`).
#[derive(Debug, Clone, PartialEq, Eq, Structural)]
pub struct PoolStats {
    /// Total capacity of the pool's live blocks, in bytes.
    pub size: usize,
    /// Bytes not covered by any sub-allocation.
    pub unused_size: usize,
    /// Number of live sub-allocations.
    pub allocation_count: usize,
    /// Number of free regions.
    pub unused_range_count: usize,
    /// Size of the largest free region.
    pub unused_range_size_max: usize,
    /// Number of live blocks.
    pub block_count: usize,
}

/// Outcome of a defragmentation pass.
#[derive(Debug, Clone, PartialEq, Eq, Structural)]
pub struct DefragmentationStats {
    pub bytes_moved: usize,
    pub allocations_moved: usize,
}

} // verus!
