use ferrios::allocator::{align_up, heap_pages, HeapInit, HeapInitStep, HeapMapError, HEAP_SIZE, HEAP_START, PAGE_SIZE};
use ferrios::allocator::bump::BumpAllocator;
use ferrios::allocator::linked_list::{LinkedListAllocator, NODE_ALIGN, NODE_SIZE};
use ferrios::allocator::fixed_size_block::{FixedSizeBlockAllocator, BLOCK_SIZES, NUM_BLOCK_SIZES};

#[test]
fn align_up_rounds_to_next_multiple() {
    assert_eq!(align_up(13, 8), 16);
    assert_eq!(align_up(16, 8), 16);
    assert_eq!(align_up(17, 16), 32);
    assert_eq!(align_up(0, 4096), 0);
    assert_eq!(align_up(1, 4096), 4096);
    assert_eq!(align_up(4097, 4096), 8192);
    assert_eq!(align_up(5, 1), 5);
}

#[test]
fn align_up_with_non_power_of_two_keeps_the_bit_formula() {
    // (5 + 3 - 1) & !(3 - 1) == 7 & !2 == 5
    assert_eq!(align_up(5, 3), 5);
    // (2 + 3 - 1) & !2 == 4
    assert_eq!(align_up(2, 3), 4);
}

#[test]
fn bump_new_heap_is_empty() {
    let mut b = BumpAllocator::new();
    assert_eq!(b.allocate(1, 1), 0);
    assert_eq!(b.allocate(0, 1), 0);
}

#[test]
fn bump_allocates_upwards_and_aligned() {
    let mut b = BumpAllocator::new();
    b.init(0x1000, 0x100);
    assert_eq!(b.allocate(3, 1), 0x1000);
    assert_eq!(b.allocate(8, 8), 0x1008);
    assert_eq!(b.allocate(16, 16), 0x1010);
    let p = b.allocate(1, 64);
    assert_eq!(p, 0x1040);
    assert_eq!(p % 64, 0);
}

#[test]
fn bump_successive_blocks_do_not_overlap() {
    let mut b = BumpAllocator::new();
    b.init(0x2000, 0x1000);
    let p1 = b.allocate(24, 8);
    let p2 = b.allocate(40, 8);
    let p3 = b.allocate(1, 1);
    assert!(p1 + 24 <= p2);
    assert!(p2 + 40 <= p3);
}

#[test]
fn bump_out_of_memory_returns_null_and_changes_nothing() {
    let mut b = BumpAllocator::new();
    b.init(0x1000, 32);
    assert_eq!(b.allocate(33, 1), 0);
    assert_eq!(b.allocate(32, 1), 0x1000);
    assert_eq!(b.allocate(1, 1), 0);
}

#[test]
fn bump_allocation_that_overflows_the_address_space_fails() {
    let mut b = BumpAllocator::new();
    b.init(0x1000, 32);
    assert_eq!(b.allocate(usize::MAX, 1), 0);
    assert_eq!(b.allocate(8, 1), 0x1000);
}

#[test]
fn bump_resets_when_last_allocation_is_freed() {
    let mut b = BumpAllocator::new();
    b.init(0x1000, 0x100);
    assert_eq!(b.allocate(16, 8), 0x1000);
    assert_eq!(b.allocate(16, 8), 0x1010);
    b.deallocate();
    // one allocation is still live: no reuse yet
    assert_eq!(b.allocate(16, 8), 0x1020);
    b.deallocate();
    b.deallocate();
    // all freed: the heap starts over
    assert_eq!(b.allocate(16, 8), 0x1000);
}

#[test]
fn bump_allocate_then_deallocate_restores() {
    let mut b = BumpAllocator::new();
    b.init(0x3000, 0x40);
    assert_eq!(b.allocate(0x40, 8), 0x3000);
    b.deallocate();
    assert_eq!(b.allocate(0x40, 8), 0x3000);
}

#[test]
fn linked_list_new_has_no_memory() {
    let mut a = LinkedListAllocator::new();
    assert_eq!(a.allocate(1, 1), 0);
}

#[test]
fn linked_list_node_constants() {
    assert_eq!(NODE_SIZE, 16);
    assert_eq!(NODE_ALIGN, 8);
}

#[test]
fn linked_list_allocates_from_front_and_splits() {
    let mut a = LinkedListAllocator::new();
    a.init(0x1000, 0x100);
    // 1 byte is raised to a 16-byte block aligned to 8
    assert_eq!(a.allocate(1, 1), 0x1000);
    // the remainder went back to the front of the list
    assert_eq!(a.allocate(24, 8), 0x1010);
    assert_eq!(a.allocate(32, 16), 0x1030);
}

#[test]
fn linked_list_rejects_region_whose_rest_is_too_small() {
    let mut a = LinkedListAllocator::new();
    a.init(0x1000, 40);
    // 32 bytes would leave 8 bytes behind: too small for a node
    assert_eq!(a.allocate(32, 8), 0);
    // 24 bytes leave 16: fine
    assert_eq!(a.allocate(24, 8), 0x1000);
    assert_eq!(a.allocate(16, 8), 0x1018);
    assert_eq!(a.allocate(1, 1), 0);
}

#[test]
fn linked_list_exact_fit_uses_whole_region() {
    let mut a = LinkedListAllocator::new();
    a.init(0x1000, 64);
    assert_eq!(a.allocate(64, 8), 0x1000);
    assert_eq!(a.allocate(1, 1), 0);
}

#[test]
fn linked_list_aligns_block_start() {
    let mut a = LinkedListAllocator::new();
    a.init(0x1008, 0x200);
    let p = a.allocate(16, 64);
    assert_eq!(p, 0x1040);
    assert_eq!(p % 64, 0);
}

#[test]
fn linked_list_first_fit_skips_small_regions() {
    let mut a = LinkedListAllocator::new();
    a.init(0x1000, 0x1000);
    let small = a.allocate(16, 8);
    assert_eq!(small, 0x1000);
    let big = a.allocate(0x100, 8);
    assert_eq!(big, 0x1010);
    // freeing the small block puts it at the front of the list
    a.deallocate(small, 16, 8);
    // too small for 0x20 bytes: the allocation comes from the region behind it
    assert_eq!(a.allocate(0x20, 8), 0x1110);
    // what remained behind that block is now at the front, and it fits 16 bytes
    assert_eq!(a.allocate(16, 8), 0x1130);
    // no region holds 0xed0 bytes any more
    assert_eq!(a.allocate(0xed0, 8), 0);
    assert_eq!(a.allocate(16, 8), 0x1140);
}

#[test]
fn linked_list_allocate_then_deallocate_gives_memory_back() {
    let mut a = LinkedListAllocator::new();
    a.init(0x1000, 64);
    let p = a.allocate(64, 8);
    assert_eq!(p, 0x1000);
    assert_eq!(a.allocate(8, 8), 0);
    a.deallocate(p, 64, 8);
    assert_eq!(a.allocate(64, 8), 0x1000);
}

#[test]
fn linked_list_deallocate_small_block_uses_node_size() {
    let mut a = LinkedListAllocator::new();
    a.init(0x1000, 16);
    let p = a.allocate(1, 1);
    assert_eq!(p, 0x1000);
    a.deallocate(p, 1, 1);
    // the block came back with 16 bytes
    assert_eq!(a.allocate(16, 8), 0x1000);
}

#[test]
fn fixed_size_block_new_has_empty_fallback_heap() {
    let mut f = FixedSizeBlockAllocator::new();
    assert_eq!(NUM_BLOCK_SIZES, 9);
    let heap = f.fallback_allocator_mut();
    assert_eq!(heap.size(), 0);
    assert_eq!(heap.bottom(), 0);
    assert_eq!(heap.used(), 0);
}

#[test]
fn heap_pages_of_the_kernel_heap() {
    let pages = heap_pages(HEAP_START, HEAP_SIZE as u64);
    assert_eq!(pages.len(), 25);
    assert_eq!(pages[0], 0x4444_4444_0000);
    assert_eq!(pages[24], 0x4444_4444_0000 + 24 * 4096);
    for i in 0..pages.len() {
        assert_eq!(pages[i], HEAP_START + (i as u64) * PAGE_SIZE);
    }
}

#[test]
fn heap_pages_of_unaligned_heap() {
    // bytes 0x1ff0..0x2010 touch the pages at 0x1000 and 0x2000
    let pages = heap_pages(0x1ff0, 0x20);
    assert_eq!(pages, vec![0x1000, 0x2000]);
    let one = heap_pages(0x3000, 1);
    assert_eq!(one, vec![0x3000]);
    let exact = heap_pages(0x3000, 4096);
    assert_eq!(exact, vec![0x3000]);
}

#[test]
fn heap_init_maps_every_page_then_initialises() {
    let (mut init, step) = HeapInit::new(0x10_0000, 2 * 4096);
    assert_eq!(step, HeapInitStep::AllocateFrame);
    assert_eq!(init.frame_allocated(Some(0xa000)), HeapInitStep::MapPage { page: 0x10_0000, frame: 0xa000 });
    assert_eq!(init.page_mapped(Ok(())), HeapInitStep::AllocateFrame);
    assert_eq!(init.frame_allocated(Some(0xb000)), HeapInitStep::MapPage { page: 0x10_1000, frame: 0xb000 });
    assert_eq!(
        init.page_mapped(Ok(())),
        HeapInitStep::InitAllocator { heap_start: 0x10_0000, heap_size: 2 * 4096 }
    );
}

#[test]
fn heap_init_fails_without_frame() {
    let (mut init, _) = HeapInit::new(HEAP_START, HEAP_SIZE);
    assert_eq!(init.frame_allocated(None), HeapInitStep::Failed(HeapMapError::FrameAllocationFailed));
}

#[test]
fn heap_init_fails_on_mapping_error() {
    let (mut init, _) = HeapInit::new(HEAP_START, HEAP_SIZE);
    assert_eq!(init.frame_allocated(Some(0x5000)), HeapInitStep::MapPage { page: HEAP_START, frame: 0x5000 });
    assert_eq!(
        init.page_mapped(Err(HeapMapError::PageAlreadyMapped(0x9000))),
        HeapInitStep::Failed(HeapMapError::PageAlreadyMapped(0x9000))
    );
    let (mut other, _) = HeapInit::new(HEAP_START, HEAP_SIZE);
    other.frame_allocated(Some(0x5000));
    assert_eq!(
        other.page_mapped(Err(HeapMapError::ParentEntryHugePage)),
        HeapInitStep::Failed(HeapMapError::ParentEntryHugePage)
    );
}

#[test]
fn heap_init_of_kernel_heap_maps_25_pages() {
    let (mut init, mut step) = HeapInit::new(HEAP_START, HEAP_SIZE);
    let mut mapped = Vec::new();
    let mut frame = 0x100_0000u64;
    loop {
        match step {
            HeapInitStep::AllocateFrame => {
                step = init.frame_allocated(Some(frame));
                frame += 4096;
            }
            HeapInitStep::MapPage { page, .. } => {
                mapped.push(page);
                step = init.page_mapped(Ok(()));
            }
            HeapInitStep::InitAllocator { heap_start, heap_size } => {
                assert_eq!(heap_start, HEAP_START);
                assert_eq!(heap_size, HEAP_SIZE);
                break;
            }
            HeapInitStep::Failed(_) => panic!("unexpected failure"),
        }
    }
    assert_eq!(mapped, heap_pages(HEAP_START, HEAP_SIZE as u64));
}

#[test]
fn block_sizes_are_powers_of_two() {
    assert_eq!(BLOCK_SIZES, [8, 16, 32, 64, 128, 256, 512, 1024, 2048]);
    assert_eq!(BLOCK_SIZES.len(), NUM_BLOCK_SIZES);
    for s in BLOCK_SIZES {
        assert!(s.is_power_of_two());
    }
}
