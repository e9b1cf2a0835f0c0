use libc_alloc::copy_len;
use libc_alloc::effective_align;
use libc_alloc::realloc_fallback;
use libc_alloc::use_direct_resize;
use libc_alloc::HostMem;
use libc_alloc::LibcAlloc;

#[test]
fn allocate_aligns_to_effective_alignment() {
    let a = LibcAlloc;
    let mut host = HostMem::new(16, 8);
    let h = a.allocate(&mut host, 100, 4).unwrap();
    assert_ne!(host.addr_of(h), 0);
    assert_eq!(host.addr_of(h) % 8, 0);
    assert_eq!(host.block_len(h), 100);
    assert!(host.is_live(h));
    let h2 = a.allocate(&mut host, 100, 32).unwrap();
    assert_eq!(host.addr_of(h2) % 32, 0);
}

#[test]
fn allocate_zero_size_succeeds() {
    let a = LibcAlloc;
    let mut host = HostMem::new(16, 8);
    let h = a.allocate(&mut host, 0, 8).unwrap();
    assert!(host.is_live(h));
    assert_eq!(host.block_len(h), 0);
}

#[test]
fn allocate_fails_when_host_refuses() {
    let a = LibcAlloc;
    let mut host = HostMem::new(16, 8);
    host.set_fail_allocs(true);
    assert!(a.allocate(&mut host, 100, 8).is_none());
    assert_eq!(host.block_count(), 0);
}

#[test]
fn alloc_zeroed_zeroes_every_byte() {
    let a = LibcAlloc;
    let mut host = HostMem::new(16, 8);
    let h = a.alloc_zeroed(&mut host, 64, 16).unwrap();
    assert_eq!(host.addr_of(h) % 16, 0);
    for i in 0..64 {
        assert_eq!(host.read_byte(h, i), 0);
    }
}

#[test]
fn alloc_zeroed_failure_touches_nothing() {
    let a = LibcAlloc;
    let mut host = HostMem::new(16, 8);
    host.set_fail_allocs(true);
    assert!(a.alloc_zeroed(&mut host, 64, 16).is_none());
    assert_eq!(host.block_count(), 0);
}

#[test]
fn dealloc_retires_the_handle_once() {
    let a = LibcAlloc;
    let mut host = HostMem::new(16, 8);
    let h = a.allocate(&mut host, 40, 8).unwrap();
    assert!(host.is_live(h));
    a.dealloc(&mut host, h, 40, 8);
    assert!(!host.is_live(h));
    // a later allocation never revives the freed handle
    let h2 = a.allocate(&mut host, 40, 8).unwrap();
    assert_ne!(h, h2);
    assert!(!host.is_live(h));
}

#[test]
fn resize_fast_path_on_weak_alignment() {
    // Minimum guaranteed alignment 16: an 8-aligned block growing to 128
    // bytes stays within the host guarantee, so the direct path is chosen.
    assert!(use_direct_resize(8, 16, 128));
    let a = LibcAlloc;
    let mut host = HostMem::new(16, 8);
    let h = a.allocate(&mut host, 64, 8).unwrap();
    host.fill(h, 0xCD);
    let hn = a.realloc(&mut host, h, 64, 8, 128).unwrap();
    assert!(!host.is_live(h));
    assert!(host.is_live(hn));
    assert_eq!(host.block_len(hn), 128);
    assert_eq!(host.addr_of(hn) % 8, 0);
    for i in 0..64 {
        assert_eq!(host.read_byte(hn, i), 0xCD);
    }
}

#[test]
fn resize_fallback_on_strict_alignment() {
    // Minimum guaranteed alignment 16: a 32-aligned block cannot trust the
    // host resize, so a new 32-aligned block is allocated and filled with
    // the first 64 bytes of the old one.
    assert!(!use_direct_resize(32, 16, 128));
    let a = LibcAlloc;
    let mut host = HostMem::new(16, 8);
    let h = a.allocate(&mut host, 64, 32).unwrap();
    host.fill(h, 0xAB);
    let hn = a.realloc(&mut host, h, 64, 32, 128).unwrap();
    assert!(!host.is_live(h));
    assert!(host.is_live(hn));
    assert_eq!(host.block_len(hn), 128);
    assert_eq!(host.addr_of(hn) % 32, 0);
    for i in 0..64 {
        assert_eq!(host.read_byte(hn, i), 0xAB);
    }
}

#[test]
fn resize_shrink_keeps_surviving_prefix() {
    let a = LibcAlloc;
    let mut host = HostMem::new(16, 8);
    let h = a.allocate(&mut host, 64, 8).unwrap();
    host.fill(h, 0x5E);
    let hn = a.realloc(&mut host, h, 64, 8, 16).unwrap();
    assert_eq!(host.block_len(hn), 16);
    for i in 0..16 {
        assert_eq!(host.read_byte(hn, i), 0x5E);
    }
}

#[test]
fn failed_resize_leaves_old_block_untouched() {
    let a = LibcAlloc;
    let mut host = HostMem::new(16, 8);
    let h = a.allocate(&mut host, 64, 32).unwrap();
    host.fill(h, 0x7F);
    host.set_fail_allocs(true);
    let r = a.realloc(&mut host, h, 64, 32, 128);
    assert!(r.is_none());
    assert!(host.is_live(h));
    assert_eq!(host.block_len(h), 64);
    for i in 0..64 {
        assert_eq!(host.read_byte(h, i), 0x7F);
    }
}

#[test]
fn fallback_called_directly_copies_and_frees() {
    let a = LibcAlloc;
    let mut host = HostMem::new(16, 8);
    let h = a.allocate(&mut host, 8, 8).unwrap();
    host.fill(h, 0x11);
    let hn = realloc_fallback(&a, &mut host, h, 8, 8, 4).unwrap();
    assert!(!host.is_live(h));
    assert_eq!(host.block_len(hn), 4);
    for i in 0..4 {
        assert_eq!(host.read_byte(hn, i), 0x11);
    }
}

#[test]
fn effective_align_takes_the_larger() {
    assert_eq!(effective_align(4, 8), 8);
    assert_eq!(effective_align(8, 8), 8);
    assert_eq!(effective_align(32, 8), 32);
    assert_eq!(effective_align(1, 4), 4);
}

#[test]
fn direct_resize_decision_table() {
    // within guarantee and within new size
    assert!(use_direct_resize(8, 16, 128));
    assert!(use_direct_resize(16, 16, 16));
    // stricter than the platform guarantee
    assert!(!use_direct_resize(32, 16, 128));
    // larger than the new size itself
    assert!(!use_direct_resize(8, 16, 4));
}

#[test]
fn copy_len_is_the_smaller_size() {
    assert_eq!(copy_len(64, 128), 64);
    assert_eq!(copy_len(128, 64), 64);
    assert_eq!(copy_len(0, 9), 0);
    assert_eq!(copy_len(7, 7), 7);
}

#[test]
fn allocate_of_the_largest_size_fails_cleanly() {
    let a = LibcAlloc;
    let mut host = HostMem::new(16, 8);
    // the rounded-up address plus the size cannot fit in the address space
    assert!(a.allocate(&mut host, usize::MAX, 8).is_none());
    assert_eq!(host.block_count(), 0);
}

#[test]
fn alloc_zeroed_zero_size_succeeds() {
    let a = LibcAlloc;
    let mut host = HostMem::new(16, 8);
    let h = a.alloc_zeroed(&mut host, 0, 8).unwrap();
    assert!(host.is_live(h));
    assert_eq!(host.block_len(h), 0);
}
