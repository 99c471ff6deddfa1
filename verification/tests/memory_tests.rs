//! Address arithmetic, the frame allocator, address-space range
//! allocation, and the saved-context layout.

use kernel_rt::interrupt::context::Context;
use kernel_rt::memory::{Flags, MemoryError};
use kernel_rt::memory::address::{
    PhysicalAddress, PhysicalPageNumber, VirtualAddress, VirtualPageNumber,
};
use kernel_rt::memory::frame::FrameAllocator;
use kernel_rt::allocator::stacked_allocator::StackedAllocator;
use kernel_rt::process::process::Process;

#[test]
fn page_offsets_and_rounding() {
    assert_eq!(VirtualAddress(0x8020_1234).page_offset(), 0x234);
    assert_eq!(PhysicalAddress(0x8000_0000).page_offset(), 0);
    assert_eq!(PhysicalPageNumber::floor(PhysicalAddress(0x8000_0fff)).0, 0x80000);
    assert_eq!(PhysicalPageNumber::ceil(PhysicalAddress(0x8000_0fff)).0, 0x80001);
    assert_eq!(PhysicalPageNumber::ceil(PhysicalAddress(0x8000_1000)).0, 0x80001);
    assert_eq!(VirtualPageNumber::floor(VirtualAddress(0)).0, 0);
    assert_eq!(VirtualPageNumber::from_address(VirtualAddress(0x3000)).0, 3);
}

#[test]
fn physical_virtual_translation_round_trips() {
    let pa = PhysicalAddress(0x8020_0000);
    let va = pa.to_virtual();
    assert_eq!(va.0, 0xffff_ffff_8020_0000);
    assert_eq!(va.to_physical(), pa);
    let ppn = PhysicalPageNumber(0x80200);
    let vpn = ppn.to_virtual();
    assert_eq!(vpn.to_physical(), ppn);
}

#[test]
fn page_table_levels_split_the_page_number() {
    // vpn = a * 2^18 + b * 2^9 + c
    let vpn = VirtualPageNumber((311 << 18) | (42 << 9) | 7);
    assert_eq!(vpn.levels(), [311, 42, 7]);
    assert_eq!(VirtualPageNumber(0).levels(), [0, 0, 0]);
    // Only nine bits per level survive.
    let vpn = VirtualPageNumber(u64::MAX >> 32);
    assert_eq!(vpn.levels(), [0x1ff, 0x1ff, 0x1ff]);
    let vpn = VirtualPageNumber(1 << 27);
    assert_eq!(vpn.levels(), [0, 0, 0]);
}

#[test]
fn frame_allocator_round_trip() {
    let start = PhysicalPageNumber(0x80000);
    let mut fa: FrameAllocator<StackedAllocator> =
        FrameAllocator::new(start, PhysicalPageNumber(0x80004));
    let mut frames = Vec::new();
    for _ in 0..4 {
        let f = fa.allocate().unwrap();
        let ppn = f.page_number().0;
        assert!((0x80000..0x80004).contains(&ppn));
        assert!(frames.iter().all(|other: &kernel_rt::memory::frame::FrameTracker| {
            other.page_number().0 != ppn
        }));
        frames.push(f);
    }
    match fa.allocate() {
        Err(e) => assert_eq!(e, MemoryError::OutOfMemory),
        Ok(_) => panic!("allocation must fail when every frame is live"),
    }
    let f = frames.pop().unwrap();
    assert_eq!(f.address().0, f.page_number().0 * 4096);
    fa.dealloc(f);
    let again = fa.allocate().unwrap();
    assert!((0x80000..0x80004).contains(&again.page_number().0));
}

#[test]
fn alloc_page_range_returns_disjoint_aligned_ranges() {
    let mut p = Process::new_kernel().unwrap();
    let flags = Flags { readable: true, writable: true, user: false };
    let a = p.alloc_page_range(100, flags).unwrap();
    let b = p.alloc_page_range(5000, flags).unwrap();
    assert_eq!(a.start.0 % 4096, 0);
    assert_eq!(b.start.0 % 4096, 0);
    assert_eq!(a.end.0, a.start.0 + 100);
    assert_eq!(b.end.0, b.start.0 + 5000);
    // The second range clears the first's page-rounded reservation.
    assert!(b.start.0 >= a.start.0 + 4096 || b.start.0 + 8192 <= a.start.0);
}

#[test]
fn context_layout_follows_the_calling_convention() {
    let args = vec![1u64, 2, 3];
    let c = Context::new(0x8000_0000, 0x4242, Some(&args), true);
    assert_eq!(c.sp(), 0x8000_0000);
    assert_eq!(c.sepc, 0x4242);
    assert_eq!(c.x[10], 1);
    assert_eq!(c.x[11], 2);
    assert_eq!(c.x[12], 3);
    assert!(c.sstatus.spp_user);
    assert!(c.sstatus.spie);
    let mut c = Context::new(0x1000, 0, None, false);
    assert!(!c.sstatus.spp_user);
    c.set_ra(0x77);
    assert_eq!(c.ra(), 0x77);
    c.set_syscall_return(-2);
    assert_eq!(c.x[10], (-2i64) as u64);
}
