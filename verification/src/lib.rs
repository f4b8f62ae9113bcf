//! A device-memory allocation engine for graphics-API clients: many buffers
//! and images are placed inside a small number of large memory blocks instead
//! of one driver allocation per object.
//!
//! The engine itself is pure bookkeeping over plain values: memory-type
//! selection, free-list sub-allocation inside blocks, pools with independent
//! growth policies, a cooperative "lost allocation" eviction mechanism,
//! defragmentation, guard-byte corruption detection and statistics. The
//! driver calls that back it (raw device allocation, mapping, binding) are
//! left to the embedding application, which feeds this engine plain values.

mod allocator;
mod block;
mod suballoc;
mod types;

pub use allocator::AllocRecord;
pub use allocator::AllocState;
pub use allocator::Allocator;
pub use allocator::Pool;
pub use allocator::DEFAULT_BLOCK_SIZE;
pub use allocator::evictable_rec;
pub use allocator::lost_of;
pub use allocator::touched;
pub use block::Block;
pub use block::GUARD_BYTE;
pub use block::GUARD_MARGIN;
pub use suballoc::Extent;
pub use suballoc::Strategy;
pub use types::AllocError;
pub use types::ALLOCATION_CREATE_CAN_BECOME_LOST;
pub use types::ALLOCATION_CREATE_CAN_MAKE_OTHER_LOST;
pub use types::ALLOCATION_CREATE_DEDICATED_MEMORY;
pub use types::ALLOCATION_CREATE_MAPPED;
pub use types::ALLOCATION_CREATE_NEVER_ALLOCATE;
pub use types::ALLOCATION_CREATE_STRATEGY_BEST_FIT;
pub use types::ALLOCATION_CREATE_STRATEGY_FIRST_FIT;
pub use types::ALLOCATION_CREATE_STRATEGY_MASK;
pub use types::ALLOCATION_CREATE_STRATEGY_MIN_FRAGMENTATION;
pub use types::ALLOCATION_CREATE_STRATEGY_MIN_MEMORY;
pub use types::ALLOCATION_CREATE_STRATEGY_MIN_TIME;
pub use types::ALLOCATION_CREATE_STRATEGY_WORST_FIT;
pub use types::Allocation;
pub use types::AllocationCreateInfo;
pub use types::AllocationInfo;
pub use types::AllocatorCreateInfo;
pub use types::AllocatorPool;
pub use types::DefragmentationStats;
pub use types::MemoryRequirements;
pub use types::MEMORY_PROPERTY_DEVICE_LOCAL;
pub use types::MEMORY_PROPERTY_HOST_CACHED;
pub use types::MEMORY_PROPERTY_HOST_COHERENT;
pub use types::MEMORY_PROPERTY_HOST_VISIBLE;
pub use types::MemoryType;
pub use types::MemoryUsage;
pub use types::PoolCreateInfo;
pub use types::PoolStats;

