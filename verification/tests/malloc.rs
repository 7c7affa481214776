use rustlibc::malloc::{
    aligned_alloc_supported, calloc_len, malloc_mapping_len, realloc_action, round_up,
    user_offset, ReallocAction, HEADER, PAGE_SIZE,
};

#[test]
fn round_up_to_powers_of_two() {
    assert_eq!(round_up(0, 8), 0);
    assert_eq!(round_up(1, 8), 8);
    assert_eq!(round_up(8, 8), 8);
    assert_eq!(round_up(4097, 4096), 8192);
    assert_eq!(round_up(5, 1), 5);
}

#[test]
fn mapping_lengths() {
    assert_eq!(malloc_mapping_len(0, HEADER), Some(PAGE_SIZE));
    assert_eq!(malloc_mapping_len(1, HEADER), Some(PAGE_SIZE));
    assert_eq!(malloc_mapping_len(PAGE_SIZE - HEADER, HEADER), Some(PAGE_SIZE));
    assert_eq!(malloc_mapping_len(PAGE_SIZE - HEADER + 1, HEADER), Some(2 * PAGE_SIZE));
    assert_eq!(malloc_mapping_len(PAGE_SIZE, 2048), Some(2 * PAGE_SIZE));
    assert_eq!(malloc_mapping_len(PAGE_SIZE - 2048, 2048), Some(PAGE_SIZE));
}

#[test]
fn mapping_length_overflow() {
    assert_eq!(malloc_mapping_len(usize::MAX, HEADER), None);
    assert_eq!(malloc_mapping_len(usize::MAX - HEADER - PAGE_SIZE + 2, HEADER), None);
    assert!(malloc_mapping_len(usize::MAX - HEADER - PAGE_SIZE + 1, HEADER).is_some());
}

#[test]
fn aligned_offsets() {
    assert_eq!(user_offset(1), HEADER);
    assert_eq!(user_offset(16), HEADER);
    assert_eq!(user_offset(32), 32);
    assert_eq!(user_offset(4096), 4096);
}

#[test]
fn calloc_overflow() {
    assert_eq!(calloc_len(3, 4), Some(12));
    assert_eq!(calloc_len(usize::MAX, 2), None);
    assert_eq!(calloc_len(0, usize::MAX), Some(0));
}

#[test]
fn realloc_decisions() {
    assert!(matches!(realloc_action(true, 0, 0, 10), ReallocAction::Allocate(10)));
    assert!(matches!(realloc_action(false, 4096, HEADER, 0), ReallocAction::Release));
    assert!(matches!(realloc_action(false, 4096, HEADER, 4080), ReallocAction::Keep));
    assert!(matches!(
        realloc_action(false, 4096, HEADER, 4081),
        ReallocAction::Move { size: 4081, copy: 4080 }
    ));
    assert!(matches!(
        realloc_action(false, 8192, 4096, 5000),
        ReallocAction::Move { size: 5000, copy: 4096 }
    ));
    assert!(matches!(realloc_action(false, 4, HEADER, 100), ReallocAction::Keep));
}

#[test]
fn aligned_alloc_alignments() {
    assert!(aligned_alloc_supported(1));
    assert!(aligned_alloc_supported(16));
    assert!(aligned_alloc_supported(4096));
    assert!(!aligned_alloc_supported(0));
    assert!(!aligned_alloc_supported(24));
    assert!(!aligned_alloc_supported(8192));
}
