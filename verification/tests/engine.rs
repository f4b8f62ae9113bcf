use vma::{
    AllocationCreateInfo, Allocator, AllocatorCreateInfo, AllocatorPool, MemoryRequirements,
    MemoryType, MemoryUsage, PoolCreateInfo, AllocError,
    ALLOCATION_CREATE_CAN_BECOME_LOST, ALLOCATION_CREATE_CAN_MAKE_OTHER_LOST,
    ALLOCATION_CREATE_NEVER_ALLOCATE,
};

fn one_type_allocator(heap: usize, frame_in_use_count: u32) -> Allocator {
    Allocator::new(&AllocatorCreateInfo {
        heap_sizes: vec![heap],
        memory_types: vec![MemoryType { property_flags: 0x7, heap_index: 0 }],
        frame_in_use_count,
    })
    .unwrap()
}

fn pool_1mib(a: &mut Allocator) -> AllocatorPool {
    a.create_pool(&PoolCreateInfo {
        memory_type_index: 0,
        block_size: 1 << 20,
        min_block_count: 0,
        max_block_count: 64,
        guarded: false,
    })
    .unwrap()
}

fn req(size: usize, alignment: usize) -> MemoryRequirements {
    MemoryRequirements { size, alignment, memory_type_bits: 1 }
}

fn info_in(pool: AllocatorPool, flags: u32) -> AllocationCreateInfo {
    AllocationCreateInfo {
        usage: MemoryUsage::Unknown,
        flags,
        required_flags: 0,
        preferred_flags: 0,
        memory_type_bits: 0,
        pool: Some(pool),
        user_data: 0,
    }
}

/// Sum of used and free extents against block capacity, over every block.
fn check_partition(a: &Allocator) {
    for pool in &a.pools {
        for b in &pool.blocks {
            if b.alive {
                let mut total: usize = 0;
                let mut next: usize = 0;
                for e in &b.extents {
                    assert_eq!(e.offset, next, "extents must tile without gap");
                    total += e.size;
                    next = e.offset + e.size;
                }
                assert_eq!(total, b.cap, "used + free must cover the capacity");
            }
        }
    }
}

#[test]
fn partition_holds_after_every_operation() {
    let mut a = one_type_allocator(8 << 20, 0);
    let pool = pool_1mib(&mut a);
    let info = info_in(pool, 0);
    let mut handles = Vec::new();
    for i in 0..5 {
        let (h, _) = a.allocate_memory(&req(100_000 + i * 13, 64), &info).unwrap();
        handles.push(h);
        check_partition(&a);
    }
    for h in &handles {
        a.free_memory(h).unwrap();
        check_partition(&a);
    }
}

#[test]
fn allocate_then_free_restores_free_structure() {
    let mut a = one_type_allocator(8 << 20, 0);
    let pool = pool_1mib(&mut a);
    let info = info_in(pool, 0);
    let (h1, _) = a.allocate_memory(&req(100_000, 32), &info).unwrap();
    let (h2, _) = a.allocate_memory(&req(50_000, 32), &info).unwrap();
    a.free_memory(&h1).unwrap();
    let before = a.pools[pool.index].blocks[0].extents.clone();
    let (h3, _) = a.allocate_memory(&req(40_000, 16), &info).unwrap();
    a.free_memory(&h3).unwrap();
    let after = a.pools[pool.index].blocks[0].extents.clone();
    assert_eq!(before, after, "allocate then free must restore the extent list");
    a.free_memory(&h2).unwrap();
}

#[test]
fn pool_growth_and_reuse_of_freed_space() {
    // A 1 MiB-block pool: three 300 KiB regions fit one block; a fourth
    // forces a second block; freeing one and asking for 250 KiB must reuse
    // the hole instead of growing a third block.
    let mut a = one_type_allocator(16 << 20, 0);
    let pool = pool_1mib(&mut a);
    let info = info_in(pool, 0);
    let k300 = 300 * 1024;
    let (h1, _) = a.allocate_memory(&req(k300, 256), &info).unwrap();
    let (_h2, _) = a.allocate_memory(&req(k300, 256), &info).unwrap();
    let (_h3, _) = a.allocate_memory(&req(k300, 256), &info).unwrap();
    assert_eq!(a.pools[pool.index].blocks.len(), 1);
    let (_h4, _) = a.allocate_memory(&req(k300, 256), &info).unwrap();
    assert_eq!(a.pools[pool.index].blocks.len(), 2, "fourth region must grow a second block");
    a.free_memory(&h1).unwrap();
    let (_h5, _) = a.allocate_memory(&req(250 * 1024, 256), &info).unwrap();
    assert_eq!(
        a.pools[pool.index].blocks.len(),
        2,
        "freed space must be reused rather than growing a third block"
    );
    check_partition(&a);
}

#[test]
fn aged_flagged_allocation_becomes_lost_and_touch_fails() {
    let mut a = one_type_allocator(8 << 20, 2);
    let pool = pool_1mib(&mut a);
    let info = info_in(pool, ALLOCATION_CREATE_CAN_BECOME_LOST);
    let (h, _) = a.allocate_memory(&req(1000, 1), &info).unwrap();
    assert!(a.touch_allocation(&h), "a live allocation touches fine");
    // Not aged yet: threshold 2, still frame 0.
    assert_eq!(a.make_pool_allocations_lost(&pool).unwrap(), 0);
    a.set_current_frame_index(5);
    let lost = a.make_pool_allocations_lost(&pool).unwrap();
    assert_eq!(lost, 1, "the aged flagged allocation is evicted");
    assert!(!a.touch_allocation(&h), "touching a lost allocation must fail");
}

#[test]
fn unflagged_allocation_is_never_evicted() {
    let mut a = one_type_allocator(8 << 20, 2);
    let pool = pool_1mib(&mut a);
    let info = info_in(pool, 0);
    let (h, _) = a.allocate_memory(&req(1000, 1), &info).unwrap();
    a.set_current_frame_index(100);
    assert_eq!(a.make_pool_allocations_lost(&pool).unwrap(), 0);
    assert!(a.touch_allocation(&h));
}

#[test]
fn can_evict_others_reclaims_a_full_pool() {
    // The pool is full of lost-eligible allocations older than the
    // threshold; a request allowed to evict others succeeds and reports
    // how many it evicted.
    let mut a = one_type_allocator(1 << 20, 2);
    let pool = a
        .create_pool(&PoolCreateInfo {
            memory_type_index: 0,
            block_size: 1 << 20,
            min_block_count: 0,
            max_block_count: 1,
            guarded: false,
        })
        .unwrap();
    let info = info_in(pool, ALLOCATION_CREATE_CAN_BECOME_LOST);
    for _ in 0..4 {
        a.allocate_memory(&req(200 * 1024, 1), &info).unwrap();
    }
    a.set_current_frame_index(9);
    let big = info_in(pool, ALLOCATION_CREATE_CAN_MAKE_OTHER_LOST);
    let err = a.allocate_memory(&req(800 * 1024, 1), &info_in(pool, 0));
    assert_eq!(err.unwrap_err(), AllocError::DeviceOutOfMemory);
    let (_h, evicted) = a.allocate_memory(&req(800 * 1024, 1), &big).unwrap();
    assert!(evicted > 0, "success must report a positive evicted count");
}

#[test]
fn never_allocate_fails_without_room() {
    let mut a = one_type_allocator(8 << 20, 0);
    let pool = pool_1mib(&mut a);
    let r = a.allocate_memory(&req(1000, 1), &info_in(pool, ALLOCATION_CREATE_NEVER_ALLOCATE));
    assert_eq!(r.unwrap_err(), AllocError::DeviceOutOfMemory);
}

#[test]
fn incompatible_type_mask_is_rejected() {
    let mut a = one_type_allocator(8 << 20, 0);
    let r = a.allocate_memory(
        &MemoryRequirements { size: 16, alignment: 1, memory_type_bits: 0 },
        &AllocationCreateInfo::default(),
    );
    assert_eq!(r.unwrap_err(), AllocError::NoCompatibleMemoryType);
}

#[test]
fn zero_size_request_is_a_usage_error() {
    let mut a = one_type_allocator(8 << 20, 0);
    let pool = pool_1mib(&mut a);
    let r = a.allocate_memory(&req(0, 1), &info_in(pool, 0));
    assert_eq!(r.unwrap_err(), AllocError::InvalidUsage);
}

#[test]
fn heap_budget_bounds_growth() {
    let mut a = one_type_allocator(1 << 20, 0);
    let pool = pool_1mib(&mut a);
    let info = info_in(pool, 0);
    a.allocate_memory(&req(900 * 1024, 1), &info).unwrap();
    let r = a.allocate_memory(&req(900 * 1024, 1), &info);
    assert_eq!(r.unwrap_err(), AllocError::DeviceOutOfMemory, "one heap holds one block");
}

#[test]
fn required_flags_select_the_memory_type() {
    let a = Allocator::new(&AllocatorCreateInfo {
        heap_sizes: vec![1 << 20, 1 << 20],
        memory_types: vec![
            MemoryType { property_flags: 0x1, heap_index: 0 },
            MemoryType { property_flags: 0x6, heap_index: 1 },
        ],
        frame_in_use_count: 0,
    })
    .unwrap();
    assert_eq!(a.find_memory_type_index(0b11, 0x2, 0), Some(1));
    assert_eq!(a.find_memory_type_index(0b11, 0x1, 0), Some(0));
    assert_eq!(a.find_memory_type_index(0b01, 0x2, 0), None);
    assert_eq!(a.find_memory_type_index(0b10, 0x8, 0), None);
}

#[test]
fn preferred_flags_and_heap_break_selection_ties() {
    // Both types carry the required bit; the one with the preferred bit
    // must win even though it comes later.
    let a = Allocator::new(&AllocatorCreateInfo {
        heap_sizes: vec![1 << 20, 1 << 20, 512],
        memory_types: vec![
            MemoryType { property_flags: 0x1, heap_index: 0 },
            MemoryType { property_flags: 0x3, heap_index: 1 },
            MemoryType { property_flags: 0x1, heap_index: 2 },
        ],
        frame_in_use_count: 0,
    })
    .unwrap();
    assert_eq!(a.find_memory_type_index(0b111, 0x1, 0x2), Some(1));
    // With no preferred bit anywhere, the smallest heap breaks the tie.
    assert_eq!(a.find_memory_type_index(0b101, 0x1, 0x2), Some(2));
}

#[test]
fn allocation_info_reports_placement_and_user_data() {
    let mut a = one_type_allocator(8 << 20, 0);
    let pool = pool_1mib(&mut a);
    let mut info = info_in(pool, 0);
    info.user_data = 77;
    let (h, _) = a.allocate_memory(&req(4096, 256), &info).unwrap();
    let got = a.get_allocation_info(&h).unwrap();
    assert!(!got.lost);
    assert_eq!(got.size, 4096);
    assert_eq!(got.offset % 256, 0);
    assert_eq!(got.user_data, 77);
    a.set_allocation_user_data(&h, 99).unwrap();
    assert_eq!(a.get_allocation_info(&h).unwrap().user_data, 99);
}

#[test]
fn lost_allocation_created_lost() {
    let mut a = one_type_allocator(1 << 20, 0);
    let h = a.create_lost_allocation();
    assert!(!a.touch_allocation(&h), "a pre-lost allocation fails its first touch");
    a.free_memory(&h).unwrap();
    assert_eq!(a.free_memory(&h).unwrap_err(), AllocError::InvalidUsage);
}

#[test]
fn default_allocation_create_info() {
    let d = AllocationCreateInfo::default();
    assert_eq!(d.flags, 0);
    assert_eq!(d.memory_type_bits, 0);
    assert!(d.pool.is_none());
    assert_eq!(d.user_data, 0);
}
