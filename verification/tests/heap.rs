use fe_rtos::fe_alloc::{get_bit_mask, init_heap, KernelAllocator, LayoutFFI, BLOCK_SIZE};

const START: usize = 0x1000;
/// Room for a free list of one block and 128 blocks of usable heap.
const END: usize = START + 129 * 16;

fn layout(size: usize, align: usize) -> LayoutFFI {
    LayoutFFI { size, align }
}

#[test]
fn bit_mask_covers_the_rest_of_the_byte() {
    let mut cur = 40;
    assert_eq!(get_bit_mask(0, 8, &mut cur), 0xFF);
    assert_eq!(cur, 48);
    let mut cur = 16;
    assert_eq!(get_bit_mask(0, 100, &mut cur), 0xFF);
    assert_eq!(cur, 24);
    let mut cur = 6;
    assert_eq!(get_bit_mask(6, 5, &mut cur), 0xC0);
    assert_eq!(cur, 8);
    let mut cur = 7;
    assert_eq!(get_bit_mask(7, 1, &mut cur), 0x80);
    assert_eq!(cur, 8);
}

#[test]
fn bit_mask_covers_only_what_is_needed() {
    let mut cur = 3;
    assert_eq!(get_bit_mask(3, 2, &mut cur), 0x18);
    assert_eq!(cur, 5);
    let mut cur = 0;
    assert_eq!(get_bit_mask(0, 1, &mut cur), 0x01);
    assert_eq!(cur, 1);
    let mut cur = 1;
    assert_eq!(get_bit_mask(1, 6, &mut cur), 0x7E);
    assert_eq!(cur, 7);
}

#[test]
fn heap_layout_puts_the_free_list_first() {
    assert_eq!(BLOCK_SIZE, 16);
    let heap = init_heap(START, END);
    assert_eq!(heap.get_heap_remaining(), 128 * 16);
    let mut heap = heap;
    // The usable heap begins behind the free list of sixteen bytes.
    assert_eq!(heap.allocate(layout(1, 1)), Some(START + 16));
}

#[test]
fn heap_start_is_rounded_up_to_a_block() {
    let mut heap = init_heap(START + 1, END + 16);
    assert_eq!(heap.get_heap_remaining(), 128 * 16);
    assert_eq!(heap.allocate(layout(16, 1)), Some(START + 16 + 16));
}

#[test]
fn allocations_take_whole_blocks() {
    let mut heap = KernelAllocator::new(START, END);
    let base = START + 16;
    assert_eq!(heap.allocate(16, 1), Some(base));
    assert_eq!(heap.get_heap_remaining(), 127 * 16);
    // Seventeen bytes take two blocks. The test of blocks 0 and 1 fails on block 0 and
    // the search goes on behind both.
    assert_eq!(heap.allocate(17, 1), Some(base + 32));
    assert_eq!(heap.get_heap_remaining(), 125 * 16);
    assert_eq!(heap.allocate(1, 1), Some(base + 16));
    assert_eq!(heap.get_heap_remaining(), 124 * 16);
}

#[test]
fn freed_blocks_are_used_again() {
    let mut heap = KernelAllocator::new(START, END);
    let base = START + 16;
    let a = heap.allocate(32, 1).unwrap();
    let b = heap.allocate(32, 1).unwrap();
    assert_eq!((a, b), (base, base + 32));
    assert!(heap.owns(a, 32));
    heap.dealloc(a, 32, 1);
    assert!(!heap.owns(a, 32));
    assert_eq!(heap.get_heap_remaining(), 126 * 16);
    // Too big for the gap: goes behind.
    assert_eq!(heap.allocate(48, 1), Some(base + 96));
    // Fits the gap.
    assert_eq!(heap.allocate(32, 1), Some(base));
    assert_eq!(heap.get_heap_remaining(), 121 * 16);
}

#[test]
fn alignment_is_respected() {
    let mut heap = KernelAllocator::new(START, END);
    // The usable heap starts at 0x1010.
    assert_eq!(heap.allocate(16, 64), Some(0x1040));
    assert_eq!(heap.allocate(16, 64), Some(0x1080));
    assert_eq!(heap.allocate(16, 16), Some(0x1010));
    assert_eq!(heap.allocate(16, 0x1000), None);
}

#[test]
fn a_run_never_reaches_the_last_block() {
    let mut heap = KernelAllocator::new(START, END);
    assert_eq!(heap.allocate(128 * 16, 1), None);
    assert_eq!(heap.get_heap_remaining(), 128 * 16);
    assert_eq!(heap.allocate(127 * 16, 1), Some(START + 16));
    assert_eq!(heap.get_heap_remaining(), 16);
    assert_eq!(heap.allocate(1, 1), None);
    assert_eq!(heap.get_heap_remaining(), 16);
}

#[test]
fn a_failed_test_skips_the_rest_of_its_step() {
    let mut heap = KernelAllocator::new(START, END);
    let base = START + 16;
    // Blocks 0, 1 and 2 are taken one by one, then block 1 is given back.
    assert_eq!(heap.allocate(16, 1), Some(base));
    let gap = heap.allocate(16, 1).unwrap();
    assert_eq!(gap, base + 16);
    assert_eq!(heap.allocate(16, 1), Some(base + 32));
    heap.dealloc(gap, 16, 1);
    // Two blocks: the test of blocks 0 and 1 fails, the test of blocks 2 and 3 fails,
    // blocks 4 and 5 are free.
    assert_eq!(heap.allocate(32, 1), Some(base + 64));
    // Three blocks: blocks 0 to 2 fail, blocks 3 to 5 fail, blocks 6 to 8 are free.
    assert_eq!(heap.allocate(48, 1), Some(base + 96));
    // One block fits the gap.
    assert_eq!(heap.allocate(16, 1), Some(gap));
}

#[test]
fn owns_tells_what_can_be_given_back() {
    let mut heap = KernelAllocator::new(START, END);
    let ptr = heap.allocate(40, 8).unwrap();
    assert!(heap.owns(ptr, 40));
    assert!(heap.owns(ptr, 16));
    assert!(!heap.owns(ptr, 64));
    assert!(!heap.owns(START, 16));
    assert!(!heap.owns(ptr + 200 * 16, 16));
    assert!(heap.owns(ptr, 0));
}

#[test]
fn an_allocation_of_nothing_takes_nothing() {
    let mut heap = KernelAllocator::new(START, END);
    assert_eq!(heap.allocate(0, 1), Some(START + 16));
    assert_eq!(heap.get_heap_remaining(), 128 * 16);
    assert_eq!(heap.allocate(16, 1), Some(START + 16));
}
