use safe_url_paths::arena::{allocate, dealloc, Arena};
use safe_url_paths::error::Error;

#[test]
fn a_region_is_written_read_and_released_with_its_size() {
    let mut arena = Arena::new();
    let ptr = allocate(&mut arena, 5).unwrap();
    assert_eq!(arena.write(ptr, 0, b"hello"), Ok(()));
    assert_eq!(arena.read(ptr, 0, 5), Ok(&b"hello"[..]));
    assert_eq!(dealloc(&mut arena, ptr, 5), Ok(()));
}

#[test]
fn a_fresh_region_holds_zeros() {
    let mut arena = Arena::new();
    let ptr = allocate(&mut arena, 3).unwrap();
    assert_eq!(arena.read(ptr, 0, 3), Ok(&[0u8, 0, 0][..]));
}

#[test]
fn pointers_count_the_regions_reserved_before() {
    let mut arena = Arena::new();
    assert_eq!(allocate(&mut arena, 1), Ok(0));
    assert_eq!(allocate(&mut arena, 0), Ok(1));
    assert_eq!(dealloc(&mut arena, 0, 1), Ok(()));
    assert_eq!(allocate(&mut arena, 2), Ok(2));
    assert_eq!(arena.store(vec![7, 8]), 3);
    assert_eq!(arena.read(3, 0, 2), Ok(&[7u8, 8][..]));
}

#[test]
fn a_negative_size_is_invalid_input() {
    let mut arena = Arena::new();
    assert_eq!(allocate(&mut arena, -1), Err(Error::InvalidInput));
    assert_eq!(allocate(&mut arena, i32::MIN), Err(Error::InvalidInput));
    assert_eq!(allocate(&mut arena, 0), Ok(0));
}

#[test]
fn a_release_with_another_size_is_reported_and_releases_nothing() {
    let mut arena = Arena::new();
    let ptr = allocate(&mut arena, 4).unwrap();
    assert_eq!(dealloc(&mut arena, ptr, 3), Err(Error::MemoryMisuse));
    assert_eq!(dealloc(&mut arena, ptr, 5), Err(Error::MemoryMisuse));
    assert_eq!(dealloc(&mut arena, ptr, -4), Err(Error::MemoryMisuse));
    assert_eq!(arena.read(ptr, 0, 4), Ok(&[0u8; 4][..]));
    assert_eq!(dealloc(&mut arena, ptr, 4), Ok(()));
}

#[test]
fn a_second_release_is_reported() {
    let mut arena = Arena::new();
    let ptr = allocate(&mut arena, 2).unwrap();
    assert_eq!(dealloc(&mut arena, ptr, 2), Ok(()));
    assert_eq!(dealloc(&mut arena, ptr, 2), Err(Error::MemoryMisuse));
}

#[test]
fn a_pointer_that_was_never_handed_out_is_reported() {
    let mut arena = Arena::new();
    assert_eq!(dealloc(&mut arena, 0, 0), Err(Error::MemoryMisuse));
    assert_eq!(arena.read(0, 0, 0), Err(Error::MemoryMisuse));
    assert_eq!(arena.write(0, 0, b""), Err(Error::MemoryMisuse));
    allocate(&mut arena, 1).unwrap();
    assert_eq!(dealloc(&mut arena, 1, 1), Err(Error::MemoryMisuse));
    assert_eq!(arena.read(usize::MAX, 0, 0), Err(Error::MemoryMisuse));
}

#[test]
fn a_released_region_can_no_longer_be_used() {
    let mut arena = Arena::new();
    let ptr = allocate(&mut arena, 2).unwrap();
    dealloc(&mut arena, ptr, 2).unwrap();
    assert_eq!(arena.read(ptr, 0, 1), Err(Error::MemoryMisuse));
    assert_eq!(arena.write(ptr, 0, b"a"), Err(Error::MemoryMisuse));
}

#[test]
fn a_write_lands_at_its_offset_and_leaves_the_rest() {
    let mut arena = Arena::new();
    let ptr = allocate(&mut arena, 6).unwrap();
    assert_eq!(arena.write(ptr, 0, b"abcdef"), Ok(()));
    assert_eq!(arena.write(ptr, 2, b"XY"), Ok(()));
    assert_eq!(arena.read(ptr, 0, 6), Ok(&b"abXYef"[..]));
    assert_eq!(arena.read(ptr, 1, 3), Ok(&b"bXY"[..]));
    assert_eq!(arena.read(ptr, 6, 0), Ok(&b""[..]));
}

#[test]
fn a_range_that_leaves_its_region_is_reported_and_writes_nothing() {
    let mut arena = Arena::new();
    let ptr = allocate(&mut arena, 3).unwrap();
    assert_eq!(arena.write(ptr, 0, b"abc"), Ok(()));
    assert_eq!(arena.write(ptr, 1, b"xyz"), Err(Error::MemoryMisuse));
    assert_eq!(arena.write(ptr, 4, b""), Err(Error::MemoryMisuse));
    assert_eq!(arena.write(ptr, usize::MAX, b"a"), Err(Error::MemoryMisuse));
    assert_eq!(arena.read(ptr, 0, 4), Err(Error::MemoryMisuse));
    assert_eq!(arena.read(ptr, 2, usize::MAX), Err(Error::MemoryMisuse));
    assert_eq!(arena.read(ptr, 0, 3), Ok(&b"abc"[..]));
}

#[test]
fn regions_do_not_disturb_each_other() {
    let mut arena = Arena::new();
    let a = allocate(&mut arena, 2).unwrap();
    let b = allocate(&mut arena, 2).unwrap();
    arena.write(a, 0, b"aa").unwrap();
    arena.write(b, 0, b"bb").unwrap();
    dealloc(&mut arena, a, 2).unwrap();
    assert_eq!(arena.read(b, 0, 2), Ok(&b"bb"[..]));
    assert_eq!(arena.read(a, 0, 2), Err(Error::MemoryMisuse));
}
