//! Frame allocation, mapping, and the heap allocator, driven end to end.
use osos::memory::{BootInfoFrameAllocator, EmptyFrameAllocator, FrameSource, MemoryRegion};
use osos::memory::allocator::{block_size, init_heap, list_index, Allocator, HEAP_PAGES, HEAP_START};
use osos::memory::paging::{example_mapping, init_offset_table, MapToError};

fn region(start: u64, end: u64, usable: bool) -> MemoryRegion {
    MemoryRegion { start, end, usable }
}

#[test]
fn frames_all_distinct_until_depletion() {
    let map = vec![
        region(0x1000, 0x3000, true),
        region(0x3000, 0x8000, false),
        region(0x8000, 0x8001, true),
    ];
    let mut fa = BootInfoFrameAllocator::new(map);
    let mut seen: Vec<u64> = Vec::new();
    while let Some(f) = fa.allocate_frame() {
        assert!(!seen.contains(&f), "frame handed out twice");
        seen.push(f);
    }
    assert_eq!(seen, vec![0x1000, 0x2000, 0x8000]);
    assert!(fa.allocate_frame().is_none());
    assert!(fa.allocate_frame().is_none());
}

#[test]
fn empty_allocator_is_always_depleted() {
    let mut fa = EmptyFrameAllocator;
    assert!(fa.allocate_frame().is_none());
    assert!(fa.allocate_frame().is_none());
}

#[test]
fn mapping_round_trip_all_offsets() {
    let mut pt = init_offset_table(0, 0x1000);
    let map = vec![region(0x100000, 0x140000, true)];
    let mut fa = BootInfoFrameAllocator::new(map);
    let frame = 0x7000u64;
    let page = 0x4000_0000u64;
    assert!(pt.map_to(page, frame, true, &mut fa).is_ok());
    for off in 0..4096u64 {
        assert_eq!(pt.translate_addr(page + off), Some(frame + off));
    }
    assert_eq!(pt.translate_addr(0x5000_0000), None);
}

#[test]
fn mapping_twice_is_refused() {
    let mut pt = init_offset_table(0, 0x1000);
    let map = vec![region(0x100000, 0x140000, true)];
    let mut fa = BootInfoFrameAllocator::new(map);
    let page = 0x4000_0000u64;
    assert!(pt.map_to(page, 0x7000, true, &mut fa).is_ok());
    assert_eq!(pt.map_to(page, 0x8000, true, &mut fa), Err(MapToError::PageAlreadyMapped));
    // the first mapping still stands
    assert_eq!(pt.translate_addr(page), Some(0x7000));
}

#[test]
fn mapping_fails_when_frames_run_out() {
    let mut pt = init_offset_table(0, 0x1000);
    let mut fa = EmptyFrameAllocator;
    assert_eq!(
        pt.map_to(0x4000_0000, 0x7000, true, &mut fa),
        Err(MapToError::FrameAllocationFailed)
    );
}

#[test]
fn allocator_class_is_smallest_fit() {
    assert_eq!(list_index(8, 1), Some(0));
    assert_eq!(list_index(9, 8), Some(1));
    assert_eq!(list_index(1, 64), Some(3));
    assert_eq!(list_index(100, 128), Some(4));
    assert_eq!(list_index(2048, 1), Some(8));
    assert_eq!(list_index(2049, 1), None);
    assert_eq!(list_index(1, 4096), None);
    for i in 0..9 {
        assert_eq!(list_index(block_size(i), 1), Some(i));
    }
}

#[test]
fn allocator_reuses_freed_block() {
    let mut a = Allocator::new();
    a.dealloc(0x9000, 16, 8);
    // the block just freed is the one handed back for the same class
    assert_eq!(a.allocate(16, 8), 0x9000);
    // the class list is empty again and the fallback has no memory yet
    assert_eq!(a.allocate(16, 8), 0);
}

#[test]
fn allocator_reuse_is_lifo() {
    let mut a = Allocator::new();
    a.dealloc(0x9000, 32, 8);
    a.dealloc(0xa000, 32, 8);
    assert_eq!(a.allocate(32, 8), 0xa000);
    assert_eq!(a.allocate(32, 8), 0x9000);
}

#[test]
fn heap_init_maps_all_pages_and_arms_fallback() {
    let mut pt = init_offset_table(0, 0x1000);
    let map = vec![region(0x100000, 0x100000 + 64 * 4096, true)];
    let mut fa = BootInfoFrameAllocator::new(map);
    let mut a = Allocator::new();
    assert!(init_heap(&mut pt, &mut fa, &mut a).is_ok());
    // page 0 takes the first frame; the next three frames become the
    // intermediate tables; every later page takes the next frame in order
    assert_eq!(pt.translate_addr(HEAP_START), Some(0x100000));
    for j in 1..HEAP_PAGES as u64 {
        assert_eq!(
            pt.translate_addr(HEAP_START + 4096 * j),
            Some(0x100000 + 4096 * (3 + j))
        );
    }
    // the fallback allocator now serves fresh, aligned blocks
    let block = a.allocate(5000, 8);
    assert!(block != 0);
    assert_eq!(block % 8, 0);
}

#[test]
fn heap_init_reports_depletion() {
    let mut pt = init_offset_table(0, 0x1000);
    let map = vec![region(0x100000, 0x100000 + 4 * 4096, true)];
    let mut fa = BootInfoFrameAllocator::new(map);
    let mut a = Allocator::new();
    assert_eq!(init_heap(&mut pt, &mut fa, &mut a), Err(MapToError::FrameAllocationFailed));
}

#[test]
fn example_mapping_reaches_the_display_frame() {
    let mut pt = init_offset_table(0, 0x1000);
    let map = vec![region(0x100000, 0x140000, true)];
    let mut fa = BootInfoFrameAllocator::new(map);
    let page = 0x0u64;
    assert!(example_mapping(page, &mut pt, &mut fa).is_ok());
    assert_eq!(pt.translate_addr(page), Some(0xb8000));
    assert_eq!(pt.translate_addr(page + 0x123), Some(0xb8000 + 0x123));
}

#[test]
fn alignment_alone_can_force_a_class() {
    // the class must fit the alignment even when the size is tiny
    assert_eq!(list_index(1, 1), Some(0));
    assert_eq!(list_index(1, 256), Some(5));
    assert_eq!(list_index(512, 2048), Some(8));
}

#[test]
fn example_mapping_refuses_a_taken_page() {
    let mut pt = init_offset_table(0, 0x1000);
    let map = vec![region(0x100000, 0x140000, true)];
    let mut fa = BootInfoFrameAllocator::new(map);
    let page = 0x8000_0000u64;
    assert!(example_mapping(page, &mut pt, &mut fa).is_ok());
    assert_eq!(
        example_mapping(page, &mut pt, &mut fa),
        Err(MapToError::PageAlreadyMapped)
    );
}
