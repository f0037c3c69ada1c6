use rust_os::memory::{BootInfoFrameAllocator, MemoryRegion};

#[test]
fn frames_come_from_usable_regions_in_order() {
    let map = vec![
        MemoryRegion { start_addr: 0x0, end_addr: 0x2000, usable: true },
        MemoryRegion { start_addr: 0x2000, end_addr: 0x10000, usable: false },
        MemoryRegion { start_addr: 0x10000, end_addr: 0x13000, usable: true },
    ];
    let mut a = BootInfoFrameAllocator::init(map);
    assert_eq!(a.allocated(), 0);
    assert_eq!(a.allocate_frame(), Some(0x0));
    assert_eq!(a.allocate_frame(), Some(0x1000));
    assert_eq!(a.allocate_frame(), Some(0x10000));
    assert_eq!(a.allocate_frame(), Some(0x11000));
    assert_eq!(a.allocate_frame(), Some(0x12000));
    assert_eq!(a.allocate_frame(), None);
    assert_eq!(a.allocate_frame(), None);
    assert_eq!(a.allocated(), 7);
}

#[test]
fn unaligned_region_frames_are_aligned_down() {
    let map = vec![MemoryRegion { start_addr: 0x1800, end_addr: 0x3000, usable: true }];
    let mut a = BootInfoFrameAllocator::init(map);
    assert_eq!(a.allocate_frame(), Some(0x1000));
    assert_eq!(a.allocate_frame(), Some(0x2000));
    assert_eq!(a.allocate_frame(), None);
}

#[test]
fn empty_map_has_no_frames() {
    let mut a = BootInfoFrameAllocator::init(Vec::new());
    assert_eq!(a.allocate_frame(), None);
}

#[test]
fn addressability_of_the_next_frame() {
    let map = vec![
        MemoryRegion { start_addr: 0x1000, end_addr: 0x3000, usable: true },
        MemoryRegion { start_addr: 0x10_0000_0000_0000, end_addr: 0x10_0000_0000_2000, usable: true },
    ];
    let mut a = BootInfoFrameAllocator::init(map);
    assert!(a.next_frame_addressable());
    assert_eq!(a.allocate_frame(), Some(0x1000));
    assert!(a.next_frame_addressable());
    assert_eq!(a.allocate_frame(), Some(0x2000));
    // The next frame starts at bit 52, which no physical address may set.
    assert!(!a.next_frame_addressable());
}

#[test]
fn unusable_high_regions_do_not_matter() {
    let map = vec![
        MemoryRegion { start_addr: 0x10_0000_0000_0000, end_addr: 0x10_0000_0001_0000, usable: false },
        MemoryRegion { start_addr: 0x5000, end_addr: 0x6000, usable: true },
    ];
    let mut a = BootInfoFrameAllocator::init(map);
    assert!(a.next_frame_addressable());
    assert_eq!(a.allocate_frame(), Some(0x5000));
    assert!(a.next_frame_addressable());
    assert_eq!(a.allocate_frame(), None);
}
