use kernel_core::bitmap::{BitmapAllocator, MAX_FRAMES};
use kernel_core::memory_pool::{MemoryPool, POOL_BLOCK_COUNT, POOL_BLOCK_SIZE, POOL_BYTES};
use kernel_core::pages::{MemoryManager, MIN_PAGE_ADDR, PAGE_SIZE, TOTAL_PAGES};

#[test]
fn frame_allocator_exhaustion_and_reuse() {
    let mut b = BitmapAllocator::with_frames(8);
    assert_eq!(b.allocate_frame(), Some(0));
    assert_eq!(b.allocate_frame(), Some(1));
    assert_eq!(b.allocate_frame(), Some(2));
    assert_eq!(b.get_free_count(), 5);
    assert!(b.free_frame(1));
    assert_eq!(b.get_free_count(), 6);
    assert_eq!(b.allocate_frame(), Some(1));
    for expected in 3..8 {
        assert_eq!(b.allocate_frame(), Some(expected));
    }
    assert_eq!(b.get_allocated_count(), 8);
    assert_eq!(b.get_free_count(), 0);
    assert_eq!(b.allocate_frame(), None);
}

#[test]
fn frame_allocator_rejects_bad_frees() {
    let mut b = BitmapAllocator::with_frames(8);
    assert!(!b.free_frame(3));
    assert!(!b.free_frame(8));
    assert_eq!(b.allocate_frame(), Some(0));
    assert!(b.is_allocated(0));
    assert!(!b.is_allocated(1));
    assert!(!b.is_allocated(100));
    assert!(b.free_frame(0));
    assert!(!b.free_frame(0));
    assert_eq!(b.get_allocated_count(), 0);
}

#[test]
fn frame_allocator_default_capacity() {
    let mut b = BitmapAllocator::new();
    assert_eq!(b.get_free_count(), MAX_FRAMES);
    for expected in 0..MAX_FRAMES {
        assert_eq!(b.allocate_frame(), Some(expected));
    }
    assert_eq!(b.allocate_frame(), None);
    assert!(b.free_frame(MAX_FRAMES - 1));
    assert!(b.free_frame(9));
    assert_eq!(b.allocate_frame(), Some(9));
    assert_eq!(b.allocate_frame(), Some(MAX_FRAMES - 1));
    assert!(!b.free_frame(MAX_FRAMES));
}

#[test]
fn page_allocator_never_reissues() {
    let base: u32 = 0x2000;
    let size: u32 = 0x100;
    let mut m = MemoryManager::with_layout(base, size, 4);
    assert_eq!(m.allocate_page(), base);
    assert_eq!(m.allocate_page(), base + size);
    assert_eq!(m.allocate_page(), base + 2 * size);
    assert_eq!(m.allocate_page(), base + 3 * size);
    assert_eq!(m.allocate_page(), 0);
    for k in 0..4 {
        m.free_page(base + k * size);
    }
    assert_eq!(m.get_allocated_pages(), 0);
    assert_eq!(m.get_free_pages(), 4);
    assert_eq!(m.allocate_page(), 0);
}

#[test]
fn page_allocator_ignores_invalid_frees() {
    let mut m = MemoryManager::new();
    let p = m.allocate_page();
    assert_eq!(p, MIN_PAGE_ADDR);
    m.free_page(p + 1);
    m.free_page(MIN_PAGE_ADDR - PAGE_SIZE);
    m.free_page(MIN_PAGE_ADDR + TOTAL_PAGES * PAGE_SIZE);
    assert_eq!(m.get_allocated_pages(), 1);
    m.free_page(p);
    assert_eq!(m.get_allocated_pages(), 0);
    m.free_page(p);
    assert_eq!(m.get_allocated_pages(), 0);
    assert_eq!(m.get_free_pages(), TOTAL_PAGES);
}

#[test]
fn page_allocator_reports_bytes() {
    let mut m = MemoryManager::new();
    assert_eq!(m.total_memory(), 4 * 1024 * 1024);
    assert_eq!(m.free_memory(), 4 * 1024 * 1024);
    assert_eq!(m.allocated_memory(), 0);
    assert_eq!(m.allocate_page(), 0x100000);
    assert_eq!(m.allocate_page(), 0x101000);
    assert_eq!(m.allocated_memory(), 2 * 4096);
    assert_eq!(m.free_memory(), 4 * 1024 * 1024 - 2 * 4096);
    assert!(m.is_valid_page(0x100000));
    assert!(m.is_valid_page(0x4FF000));
    assert!(!m.is_valid_page(0x500000));
    assert!(!m.is_valid_page(0xFF000));
    assert!(!m.is_valid_page(0x100800));
    m.reset();
    assert_eq!(m.allocated_memory(), 0);
    assert_eq!(m.allocate_page(), 0x100000);
}

#[test]
fn block_pool_double_free_guard() {
    let mut p = MemoryPool::new();
    let a = p.allocate_block().unwrap();
    assert_eq!(a, 0);
    assert_eq!(p.get_allocated_count(), 1);
    assert!(p.free_block(a));
    assert!(!p.free_block(a));
    assert_eq!(p.get_allocated_count(), 0);
    let b = p.allocate_block().unwrap();
    assert!(!p.free_block(POOL_BYTES));
    assert!(!p.free_block(POOL_BYTES + POOL_BLOCK_SIZE));
    assert!(!p.free_block(b + 1));
    assert_eq!(p.get_allocated_count(), 1);
    assert_eq!(p.get_free_count(), POOL_BLOCK_COUNT - 1);
}

#[test]
fn block_pool_exhaustion() {
    let mut p = MemoryPool::new();
    for k in 0..POOL_BLOCK_COUNT {
        assert_eq!(p.allocate_block(), Some(k * POOL_BLOCK_SIZE));
    }
    assert_eq!(p.allocate_block(), None);
    assert_eq!(p.get_free_count(), 0);
    assert!(p.free_block(5 * POOL_BLOCK_SIZE));
    assert_eq!(p.allocate_block(), Some(5 * POOL_BLOCK_SIZE));
}

#[test]
fn page_allocator_counts_pages() {
    let mut m = MemoryManager::with_layout(0x4000, 0x1000, 3);
    assert_eq!(m.get_total_pages(), 3);
    assert_eq!(m.total_memory(), 0x3000);
    assert_eq!(m.allocate_page(), 0x4000);
    assert_eq!(m.get_allocated_pages(), 1);
    assert_eq!(m.get_free_pages(), 2);
    assert!(!m.is_valid_page(0x7000));
    assert!(m.is_valid_page(0x6000));
}
