use bump_allocator::{AllocError, EarlyAllocator, PAGE_SIZE};

#[test]
fn single_page_arena_serves_one_page() {
    let mut a = EarlyAllocator::<4096>::new();
    a.init(0, 4096);
    assert_eq!(a.alloc_pages(1, 4096), Ok(0));
    assert_eq!(a.alloc_pages(1, 4096), Err(AllocError::NoMemory));
    assert_eq!(a.used_pages(), 1);
    assert_eq!(a.available_bytes(), 0);
}

#[test]
fn page_size_is_4096() {
    assert_eq!(PAGE_SIZE, 4096);
    assert_eq!(EarlyAllocator::<64>::PAGE_SIZE, 4096);
}

#[test]
fn pages_come_out_in_falling_aligned_offsets() {
    let mut a = EarlyAllocator::<{ 16 * 4096 }>::new();
    let mut previous = 16 * 4096;
    let requests: [(usize, usize); 4] = [(1, 4096), (2, 0), (1, 16384), (3, 8192)];
    let expected: [usize; 4] = [15 * 4096, 13 * 4096, 12 * 4096, 8 * 4096];
    for (k, (num_pages, align)) in requests.iter().enumerate() {
        let offset = a.alloc_pages(*num_pages, *align).unwrap();
        assert_eq!(offset, expected[k]);
        assert!(offset + num_pages * 4096 <= previous);
        assert_eq!(offset % 4096, 0);
        if *align > 0 {
            assert_eq!(offset % align, 0);
        }
        previous = offset;
    }
    assert_eq!(a.used_pages(), 8);
    assert_eq!(a.available_pages(), 8);
    assert_eq!(a.total_pages(), 16);
}

#[test]
fn alignment_may_take_more_than_the_pages() {
    let mut a = EarlyAllocator::<{ 8 * 4096 }>::new();
    assert_eq!(a.alloc_pages(1, 4096), Ok(7 * 4096));
    // one page below 7 pages is 6 pages, rounded down to 4 pages
    assert_eq!(a.alloc_pages(1, 4 * 4096), Ok(4 * 4096));
    assert_eq!(a.used_pages(), 4);
    assert_eq!(a.available_bytes(), 4 * 4096);
}

#[test]
fn zero_pages_are_refused() {
    let mut a = EarlyAllocator::<8192>::new();
    assert_eq!(a.alloc_pages(0, 4096), Err(AllocError::NoMemory));
    assert_eq!(a.alloc_pages(0, 0), Err(AllocError::NoMemory));
    assert_eq!(a.used_pages(), 0);
    assert_eq!(a.available_bytes(), 8192);
}

#[test]
fn pages_that_would_cross_the_bytes_are_refused() {
    let mut a = EarlyAllocator::<8192>::new();
    assert_eq!(a.alloc_bytes(1, 1), Ok(0));
    assert_eq!(a.alloc_pages(2, 4096), Err(AllocError::NoMemory));
    assert_eq!(a.used_pages(), 0);
    assert_eq!(a.available_bytes(), 8191);
    assert_eq!(a.alloc_pages(1, 4096), Ok(4096));
    assert_eq!(a.alloc_pages(1, 4096), Err(AllocError::NoMemory));
    assert_eq!(a.used_pages(), 1);
    assert_eq!(a.available_bytes(), 4095);
    assert_eq!(a.used_bytes(), 1);
}

#[test]
fn more_pages_than_the_arena_holds_are_refused() {
    let mut a = EarlyAllocator::<8192>::new();
    assert_eq!(a.alloc_pages(3, 4096), Err(AllocError::NoMemory));
    assert_eq!(a.alloc_pages(usize::MAX, 4096), Err(AllocError::NoMemory));
    assert_eq!(a.alloc_pages(usize::MAX / 4096 + 1, 4096), Err(AllocError::NoMemory));
    assert_eq!(a.available_bytes(), 8192);
    assert_eq!(a.alloc_pages(2, 4096), Ok(0));
}

#[test]
fn an_arena_smaller_than_a_page_serves_no_page() {
    let mut a = EarlyAllocator::<64>::new();
    assert_eq!(a.alloc_pages(1, 4096), Err(AllocError::NoMemory));
    assert_eq!(a.total_pages(), 0);
    assert_eq!(a.available_bytes(), 64);
}

#[test]
fn an_unaligned_capacity_is_rounded_down_by_the_first_page() {
    let mut a = EarlyAllocator::<10000>::new();
    // 10000 - 4096 = 5904, rounded down to 4096
    assert_eq!(a.alloc_pages(1, 1), Ok(4096));
    assert_eq!(a.used_pages(), 1);
    assert_eq!(a.available_bytes(), 4096);
    assert_eq!(a.total_pages(), 2);
    assert_eq!(a.total_bytes(), 10000);
}

#[test]
fn an_alignment_that_is_no_power_of_two_clears_its_mask_bits() {
    let mut a = EarlyAllocator::<{ 6 * 4096 }>::new();
    // 5 pages with the bits of 3 * 4096 - 1 cleared are 5 pages still
    assert_eq!(a.alloc_pages(1, 3 * 4096), Ok(5 * 4096));
    assert_eq!(a.used_pages(), 1);
}

#[test]
fn releasing_pages_does_nothing() {
    let mut a = EarlyAllocator::<8192>::new();
    assert_eq!(a.alloc_pages(1, 4096), Ok(4096));
    a.dealloc_pages(4096, 1);
    assert_eq!(a.used_pages(), 1);
    assert_eq!(a.available_bytes(), 4096);
    assert_eq!(a.alloc_pages(1, 4096), Ok(0));
    a.dealloc_pages(0, 1);
    a.dealloc_pages(4096, 1);
    assert_eq!(a.alloc_pages(1, 4096), Err(AllocError::NoMemory));
    assert_eq!(a.used_pages(), 2);
}

#[test]
fn accounting_adds_up_after_every_call() {
    let mut a = EarlyAllocator::<{ 4 * 4096 }>::new();
    let total = a.total_bytes();
    assert_eq!(total, 4 * 4096);
    let held_by_pages = |a: &EarlyAllocator<{ 4 * 4096 }>| a.used_pages() * PAGE_SIZE;

    assert_eq!(a.alloc_bytes(100, 8), Ok(0));
    assert_eq!(a.used_bytes() + a.available_bytes() + held_by_pages(&a), total);
    assert_eq!(a.alloc_pages(1, 4096), Ok(3 * 4096));
    assert_eq!(a.used_bytes() + a.available_bytes() + held_by_pages(&a), total);
    assert_eq!((a.used_bytes(), a.available_bytes(), a.used_pages()), (100, 3 * 4096 - 100, 1));
    assert_eq!(a.alloc_pages(4, 4096), Err(AllocError::NoMemory));
    assert_eq!(a.used_bytes() + a.available_bytes() + held_by_pages(&a), total);
    assert_eq!(a.alloc_bytes(28, 4), Ok(100));
    assert_eq!(a.used_bytes() + a.available_bytes() + held_by_pages(&a), total);
    a.dealloc(0, 100, 8);
    assert_eq!(a.used_bytes() + a.available_bytes() + held_by_pages(&a), total);
    a.dealloc(100, 28, 4);
    assert_eq!(a.used_bytes() + a.available_bytes() + held_by_pages(&a), total);
    assert_eq!((a.used_bytes(), a.available_bytes(), a.used_pages()), (0, 3 * 4096, 1));
    assert_eq!(a.total_bytes(), total);
    assert_eq!(a.available_pages(), 3);
}

#[test]
fn bytes_and_pages_meet_in_the_middle() {
    let mut a = EarlyAllocator::<8192>::new();
    assert_eq!(a.alloc_pages(1, 4096), Ok(4096));
    assert_eq!(a.alloc_bytes(4096, 1), Ok(0));
    assert_eq!(a.available_bytes(), 0);
    assert_eq!(a.available_pages(), 0);
    assert_eq!(a.alloc_bytes(1, 1), Err(AllocError::NoMemory));
    assert_eq!(a.alloc_pages(1, 4096), Err(AllocError::NoMemory));
    a.dealloc(0, 4096, 1);
    assert_eq!(a.available_bytes(), 4096);
    assert_eq!(a.alloc_pages(1, 4096), Ok(0));
}
