use task_core::mem::{copy_from_user, copy_to_user, UserSpace, PAGE_SIZE};
use task_core::process::{sys_mmap, sys_munmap};

#[test]
fn mmap_then_read_back_zeroes() {
    let mut space = UserSpace::new();
    assert_eq!(sys_mmap(&mut space, 0x1000, PAGE_SIZE, 3), 0);
    let bytes = copy_from_user(&space, 0x1000, PAGE_SIZE).unwrap();
    assert_eq!(bytes.len(), PAGE_SIZE);
    assert!(bytes.iter().all(|&b| b == 0));
}

#[test]
fn mmap_rejects_bad_arguments() {
    let mut space = UserSpace::new();
    // misaligned start
    assert_eq!(sys_mmap(&mut space, 0x1001, 16, 3), -1);
    // empty permission bits
    assert_eq!(sys_mmap(&mut space, 0x1000, 16, 0), -1);
    // bits outside the allowed mask
    assert_eq!(sys_mmap(&mut space, 0x1000, 16, 8), -1);
    // range past the address width
    assert_eq!(sys_mmap(&mut space, 0x1000, usize::MAX, 3), -1);
    // nothing was mapped by any of the failures
    assert!(space.find_page(0x1).is_none());
    // a zero-length request succeeds and maps nothing
    assert_eq!(sys_mmap(&mut space, 0x1000, 0, 3), 0);
    assert!(space.find_page(0x1).is_none());
}

#[test]
fn mmap_rejects_overlap_atomically() {
    let mut space = UserSpace::new();
    assert_eq!(sys_mmap(&mut space, 0x2000, PAGE_SIZE, 3), 0);
    // [0x1000, 0x4000) overlaps the page at 0x2000: nothing new is mapped
    assert_eq!(sys_mmap(&mut space, 0x1000, 3 * PAGE_SIZE, 3), -1);
    assert!(space.find_page(0x1).is_none());
    assert!(space.find_page(0x2).is_some());
    assert!(space.find_page(0x3).is_none());
}

#[test]
fn mmap_rounds_length_up_to_pages() {
    let mut space = UserSpace::new();
    assert_eq!(sys_mmap(&mut space, 0x1000, PAGE_SIZE + 1, 3), 0);
    assert!(space.find_page(0x1).is_some());
    assert!(space.find_page(0x2).is_some());
    assert!(space.find_page(0x3).is_none());
}

#[test]
fn munmap_removes_a_mapped_range() {
    let mut space = UserSpace::new();
    assert_eq!(sys_mmap(&mut space, 0x1000, 2 * PAGE_SIZE, 3), 0);
    assert_eq!(sys_munmap(&mut space, 0x1000, 2 * PAGE_SIZE), 0);
    assert!(space.find_page(0x1).is_none());
    assert!(space.find_page(0x2).is_none());
    assert!(copy_from_user(&space, 0x1000, 1).is_none());
}

#[test]
fn munmap_fails_on_unmapped_or_partial_range() {
    let mut space = UserSpace::new();
    // nothing mapped at all
    assert_eq!(sys_munmap(&mut space, 0x1000, PAGE_SIZE), -1);
    assert_eq!(sys_mmap(&mut space, 0x1000, PAGE_SIZE, 3), 0);
    // the second page of the range is not mapped: fail, remove nothing
    assert_eq!(sys_munmap(&mut space, 0x1000, 2 * PAGE_SIZE), -1);
    assert!(space.find_page(0x1).is_some());
    // misaligned start
    assert_eq!(sys_munmap(&mut space, 0x1004, 8), -1);
    // zero length succeeds without removing anything
    assert_eq!(sys_munmap(&mut space, 0x1000, 0), 0);
    assert!(space.find_page(0x1).is_some());
}

#[test]
fn copy_round_trip_within_one_page() {
    let mut space = UserSpace::new();
    assert_eq!(sys_mmap(&mut space, 0x5000, PAGE_SIZE, 3), 0);
    let data: Vec<u8> = (0..64).collect();
    assert_eq!(copy_to_user(&mut space, 0x5100, &data), 64);
    assert_eq!(copy_from_user(&space, 0x5100, 64).unwrap(), data);
    // neighbouring bytes stay zero
    assert_eq!(copy_from_user(&space, 0x50FF, 1).unwrap(), vec![0]);
    assert_eq!(copy_from_user(&space, 0x5140, 1).unwrap(), vec![0]);
}

#[test]
fn copy_spans_page_boundary() {
    let mut space = UserSpace::new();
    assert_eq!(sys_mmap(&mut space, 0x5000, 2 * PAGE_SIZE, 3), 0);
    let data: Vec<u8> = (0..8).map(|x| x + 10).collect();
    // destination straddles the 0x6000 boundary
    assert_eq!(copy_to_user(&mut space, 0x5FFC, &data), 8);
    assert_eq!(copy_from_user(&space, 0x5FFC, 8).unwrap(), data);
}

#[test]
fn copy_crossing_into_unmapped_page_is_partial() {
    // the documented partial-write policy: a copy whose destination crosses
    // into an unmapped page fails with -1, and the bytes that fell on the
    // writable page before it stay written
    let mut space = UserSpace::new();
    assert_eq!(sys_mmap(&mut space, 0x1000, PAGE_SIZE, 3), 0);
    let data = vec![1u8, 2, 3, 4];
    assert_eq!(copy_to_user(&mut space, 0x1FFE, &data), -1);
    assert_eq!(copy_from_user(&space, 0x1FFE, 2).unwrap(), vec![1, 2]);
    assert!(space.find_page(0x2).is_none());
}

#[test]
fn copy_to_read_only_page_fails_and_writes_nothing() {
    let mut space = UserSpace::new();
    assert_eq!(sys_mmap(&mut space, 0x1000, PAGE_SIZE, 1), 0);
    let data = vec![9u8, 9, 9];
    assert_eq!(copy_to_user(&mut space, 0x1000, &data), -1);
    assert_eq!(copy_from_user(&space, 0x1000, 3).unwrap(), vec![0, 0, 0]);
}

#[test]
fn copy_from_write_only_page_fails() {
    let mut space = UserSpace::new();
    assert_eq!(sys_mmap(&mut space, 0x1000, PAGE_SIZE, 2), 0);
    let data = vec![5u8];
    assert_eq!(copy_to_user(&mut space, 0x1000, &data), 1);
    assert!(copy_from_user(&space, 0x1000, 1).is_none());
}

#[test]
fn copy_rejects_address_overflow() {
    let mut space = UserSpace::new();
    let data = vec![1u8, 2, 3, 4];
    assert_eq!(copy_to_user(&mut space, usize::MAX - 1, &data), -1);
    assert!(copy_from_user(&space, usize::MAX - 1, 4).is_none());
}

#[test]
fn zero_length_copies_succeed() {
    let mut space = UserSpace::new();
    let empty: Vec<u8> = Vec::new();
    assert_eq!(copy_to_user(&mut space, 0x1000, &empty), 0);
    assert_eq!(copy_from_user(&space, 0x1000, 0).unwrap(), empty);
}
