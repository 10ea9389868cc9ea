use wasm_valgrind::{AccessError, MemState, Valgrind};

#[test]
fn basic_valgrind() {
    let mut valgrind_state = Valgrind::new(640 * 1024, 0);

    assert!(valgrind_state.malloc(0x1000, 32).is_ok());
    assert!(valgrind_state.write(0x1000, 4).is_ok());
    assert!(valgrind_state.read(0x1000, 4).is_ok());
    assert!(valgrind_state.free(0x1000, 32).is_ok());
}

#[test]
fn read_before_initializing() {
    let mut valgrind_state = Valgrind::new(640 * 1024, 0);

    assert!(valgrind_state.malloc(0x1000, 32).is_ok());
    assert_eq!(valgrind_state.read(0x1000, 4), Err(AccessError::InvalidRead { addr: 0x1000, len: 4 }));
    assert!(valgrind_state.write(0x1000, 4).is_ok());
    assert!(valgrind_state.free(0x1000, 32).is_ok());
}

#[test]
fn use_after_free() {
    let mut valgrind_state = Valgrind::new(640 * 1024, 0);

    assert!(valgrind_state.malloc(0x1000, 32).is_ok());
    assert!(valgrind_state.write(0x1000, 4).is_ok());
    assert!(valgrind_state.write(0x1000, 4).is_ok());
    assert!(valgrind_state.free(0x1000, 32).is_ok());
    assert_eq!(valgrind_state.write(0x1000, 4), Err(AccessError::InvalidWrite { addr: 0x1000, len: 4 }));
}

#[test]
fn double_free() {
    let mut valgrind_state = Valgrind::new(640 * 1024, 0);

    assert!(valgrind_state.malloc(0x1000, 32).is_ok());
    assert!(valgrind_state.write(0x1000, 4).is_ok());
    assert!(valgrind_state.free(0x1000, 32).is_ok());
    assert_eq!(valgrind_state.free(0x1000, 32), Err(AccessError::DoubleFree { addr: 0x1000, len: 32 }));
}

#[test]
fn out_of_bounds_malloc() {
    let mut valgrind_state = Valgrind::new(640 * 1024, 0);

    assert_eq!(valgrind_state.malloc(640 * 1024, 1), Err(AccessError::OutOfBounds { addr: 640 * 1024, len: 1 }));
    assert_eq!(
        valgrind_state.malloc(640 * 1024 - 10, 15),
        Err(AccessError::OutOfBounds { addr: 640 * 1024 - 10, len: 15 })
    );
}

#[test]
fn out_of_bounds_read() {
    let mut valgrind_state = Valgrind::new(640 * 1024, 0);

    assert!(valgrind_state.malloc(640 * 1024 - 24, 24).is_ok());
    assert_eq!(
        valgrind_state.read(640 * 1024 - 24, 25),
        Err(AccessError::OutOfBounds { addr: 640 * 1024 - 24, len: 25 })
    );
}

#[test]
fn double_malloc() {
    let mut valgrind_state = Valgrind::new(640 * 1024, 0);

    assert!(valgrind_state.malloc(0x1000, 32).is_ok());
    assert_eq!(valgrind_state.malloc(0x1000, 32), Err(AccessError::DoubleMalloc { addr: 0x1000, len: 32 }));
    assert_eq!(valgrind_state.malloc(0x1002, 32), Err(AccessError::DoubleMalloc { addr: 0x1002, len: 32 }));
}

#[test]
fn error_type() {
    let mut valgrind_state = Valgrind::new(640 * 1024, 0);

    assert!(valgrind_state.malloc(0x1000, 32).is_ok());
    assert_eq!(valgrind_state.malloc(0x1000, 32), Err(AccessError::DoubleMalloc { addr: 0x1000, len: 32 }));
    assert_eq!(valgrind_state.malloc(640 * 1024, 32), Err(AccessError::OutOfBounds { addr: 640 * 1024, len: 32 }));
}

#[test]
fn stack_grow_shrink_no_error() {
    let mut valgrind_state = Valgrind::new(640 * 1024, 1024);

    assert_eq!(valgrind_state.max_stack_size(), 1024);
    assert!(valgrind_state.grow_stack(256).is_ok());
    assert_eq!(valgrind_state.stack_pointer(), 768);
    assert!(valgrind_state.malloc(1024 * 2, 32).is_ok());
    assert!(valgrind_state.free(1024 * 2, 32).is_ok());
    assert!(valgrind_state.shrink_stack(128).is_ok());
    assert_eq!(valgrind_state.stack_pointer(), 896);
}

#[test]
fn bad_stack_malloc() {
    let mut valgrind_state = Valgrind::new(640 * 1024, 1024);

    assert!(valgrind_state.grow_stack(1024).is_ok());
    assert_eq!(valgrind_state.stack_pointer(), 0);
    assert_eq!(valgrind_state.malloc(512, 32), Err(AccessError::OutOfBounds { addr: 512, len: 32 }));
    assert_eq!(valgrind_state.malloc(1022, 32), Err(AccessError::OutOfBounds { addr: 1022, len: 32 }));
}

// Reads, writes and frees are bounded by memory alone, so an access to the
// unused part of the stack region is refused as an invalid access to
// unallocated bytes rather than as out of bounds.
#[test]
fn bad_stack_access() {
    let mut valgrind_state = Valgrind::new(640 * 1024, 1024);

    assert!(valgrind_state.grow_stack(512).is_ok());
    assert_eq!(valgrind_state.stack_pointer(), 512);
    assert_eq!(valgrind_state.read(256, 16), Err(AccessError::InvalidRead { addr: 256, len: 16 }));
    assert_eq!(valgrind_state.write(500, 32), Err(AccessError::InvalidWrite { addr: 500, len: 32 }));
}

#[test]
fn stack_overflow() {
    let mut valgrind_state = Valgrind::new(640 * 1024, 1024);

    assert!(valgrind_state.grow_stack(512).is_ok());
    assert_eq!(valgrind_state.grow_stack(524), Err(AccessError::OutOfBounds { addr: 512, len: 524 }));
    assert_eq!(valgrind_state.stack_pointer(), 512);
    assert_eq!(valgrind_state.read(256, 16), Err(AccessError::InvalidRead { addr: 256, len: 16 }));
    assert_eq!(valgrind_state.write(500, 32), Err(AccessError::InvalidWrite { addr: 500, len: 32 }));
}

#[test]
fn stack_underflow() {
    let mut valgrind_state = Valgrind::new(640 * 1024, 1024);

    assert!(valgrind_state.grow_stack(32).is_ok());
    assert_eq!(valgrind_state.shrink_stack(64), Err(AccessError::OutOfBounds { addr: 992, len: 64 }));
    assert_eq!(valgrind_state.stack_pointer(), 992);
}

#[test]
fn round_trip_restores_unallocated() {
    let mut v = Valgrind::new(4096, 64);
    assert!(v.malloc(100, 10).is_ok());
    assert_eq!(v.state_at(100), MemState::ValidToWrite);
    assert_eq!(v.state_at(109), MemState::ValidToWrite);
    assert_eq!(v.state_at(110), MemState::Unallocated);
    assert!(v.free(100, 10).is_ok());
    for a in 100..110 {
        assert_eq!(v.state_at(a), MemState::Unallocated);
    }
}

#[test]
fn write_initialises_bytes() {
    let mut v = Valgrind::new(4096, 64);
    assert!(v.malloc(200, 8).is_ok());
    assert!(v.write(202, 2).is_ok());
    assert_eq!(v.state_at(201), MemState::ValidToWrite);
    assert_eq!(v.state_at(202), MemState::ValidToReadWrite);
    assert_eq!(v.state_at(203), MemState::ValidToReadWrite);
    assert_eq!(v.state_at(204), MemState::ValidToWrite);
    assert!(v.read(202, 2).is_ok());
    assert_eq!(v.read(201, 2), Err(AccessError::InvalidRead { addr: 201, len: 2 }));
}

#[test]
fn use_after_free_read() {
    let mut v = Valgrind::new(4096, 64);
    assert!(v.malloc(300, 16).is_ok());
    assert!(v.write(300, 16).is_ok());
    assert!(v.free(300, 16).is_ok());
    assert_eq!(v.read(300, 16), Err(AccessError::InvalidRead { addr: 300, len: 16 }));
}

#[test]
fn failed_operations_change_nothing() {
    let mut v = Valgrind::new(4096, 64);
    assert!(v.malloc(100, 4).is_ok());
    // Overlaps the live range at its last byte: nothing of it is allocated.
    assert_eq!(v.malloc(96, 5), Err(AccessError::DoubleMalloc { addr: 96, len: 5 }));
    assert_eq!(v.state_at(96), MemState::Unallocated);
    // The write reaches one byte past the live range: nothing is initialised.
    assert_eq!(v.write(100, 5), Err(AccessError::InvalidWrite { addr: 100, len: 5 }));
    assert_eq!(v.state_at(100), MemState::ValidToWrite);
    // The free reaches one byte past the live range: nothing is released.
    assert_eq!(v.free(100, 5), Err(AccessError::DoubleFree { addr: 100, len: 5 }));
    assert_eq!(v.state_at(100), MemState::ValidToWrite);
}

#[test]
fn malloc_at_stack_top_is_out_of_bounds() {
    let mut v = Valgrind::new(4096, 64);
    assert_eq!(v.malloc(64, 4), Err(AccessError::OutOfBounds { addr: 64, len: 4 }));
    assert!(v.malloc(65, 4).is_ok());
    assert!(v.malloc(4092, 4).is_ok());
}

#[test]
fn wrapping_ranges_are_out_of_bounds() {
    let mut v = Valgrind::new(4096, 64);
    assert_eq!(v.malloc(100, usize::MAX), Err(AccessError::OutOfBounds { addr: 100, len: usize::MAX }));
    assert_eq!(v.read(usize::MAX, 2), Err(AccessError::OutOfBounds { addr: usize::MAX, len: 2 }));
    assert_eq!(v.write(2, usize::MAX), Err(AccessError::OutOfBounds { addr: 2, len: usize::MAX }));
    assert_eq!(v.free(usize::MAX, usize::MAX), Err(AccessError::OutOfBounds { addr: usize::MAX, len: usize::MAX }));
    assert_eq!(v.shrink_stack(usize::MAX), Err(AccessError::OutOfBounds { addr: 64, len: usize::MAX }));
}

#[test]
fn stack_frame_is_readable() {
    let mut v = Valgrind::new(4096, 64);
    assert!(v.grow_stack(16).is_ok());
    assert_eq!(v.stack_pointer(), 48);
    assert_eq!(v.state_at(48), MemState::ValidToReadWrite);
    assert_eq!(v.state_at(47), MemState::Unallocated);
    assert!(v.read(48, 16).is_ok());
    assert!(v.write(50, 4).is_ok());
    assert!(v.shrink_stack(16).is_ok());
    assert_eq!(v.stack_pointer(), 64);
    assert_eq!(v.read(48, 16), Err(AccessError::InvalidRead { addr: 48, len: 16 }));
    assert_eq!(v.mem_size(), 4096);
}

#[test]
fn empty_ranges() {
    let mut v = Valgrind::new(4096, 64);
    assert!(v.malloc(100, 0).is_ok());
    assert!(v.read(100, 0).is_ok());
    assert!(v.grow_stack(0).is_ok());
    assert!(v.shrink_stack(0).is_ok());
    assert_eq!(v.stack_pointer(), 64);
}
