use os::address::{PhysAddr, PhysPageNum, VirtAddr, VirtPageNum};
use os::frame_allocator::{frame_alloc, frame_dealloc, FrameTracker, StackFrameAllocator};
use os::memory::PhysMemory;
use os::page_table::{translated_byte_buffer, FrameSlice, PTEFlags, PageTable, PageTableEntry, PTE_R, PTE_V, PTE_W, PTE_X};

#[test]
fn frame_allocator_hands_out_fresh_frames_in_order() {
    let mut a = StackFrameAllocator::new();
    a.init(PhysPageNum(0x80), PhysPageNum(0x90));
    let f1 = a.allocate().unwrap();
    let f2 = a.allocate().unwrap();
    assert_eq!(f1, PhysPageNum(0x80));
    assert_eq!(f2, PhysPageNum(0x81));
}

#[test]
fn frame_allocator_is_empty_at_end_of_range() {
    let mut a = StackFrameAllocator::new();
    a.init(PhysPageNum(5), PhysPageNum(7));
    assert!(a.allocate().is_some());
    assert!(a.allocate().is_some());
    assert!(a.allocate().is_none());
    assert!(a.allocate().is_none());
}

#[test]
fn frame_allocator_init_keeps_recycled_frames() {
    let mut a = StackFrameAllocator::new();
    a.init(PhysPageNum(10), PhysPageNum(12));
    let p = a.allocate().unwrap();
    a.dealloc(p);
    a.init(PhysPageNum(20), PhysPageNum(21));
    assert_eq!(a.allocate(), Some(PhysPageNum(10)));
    assert_eq!(a.allocate(), Some(PhysPageNum(20)));
    assert_eq!(a.allocate(), None);
}

#[test]
fn frame_allocator_refuses_frames_outside_its_range() {
    let mut a = StackFrameAllocator::new();
    a.init(PhysPageNum(5), PhysPageNum(10));
    let p = a.allocate().unwrap();
    assert!(a.can_dealloc(p));
    assert!(!a.can_dealloc(PhysPageNum(3)));
    assert!(!a.can_dealloc(PhysPageNum(6)));
}

#[test]
fn frame_allocator_reports_whether_a_frame_is_left() {
    let mut a = StackFrameAllocator::new();
    assert!(!a.has_free_frame());
    a.init(PhysPageNum(5), PhysPageNum(6));
    assert!(a.has_free_frame());
    let p = a.allocate().unwrap();
    assert!(!a.has_free_frame());
    a.dealloc(p);
    assert!(a.has_free_frame());
}

#[test]
fn frame_allocator_reuses_the_last_recycled_frame_first() {
    let mut a = StackFrameAllocator::new();
    a.init(PhysPageNum(10), PhysPageNum(20));
    let x = a.allocate().unwrap();
    let y = a.allocate().unwrap();
    let z = a.allocate().unwrap();
    a.dealloc(x);
    a.dealloc(z);
    assert_eq!(a.allocate(), Some(z));
    assert_eq!(a.allocate(), Some(x));
    assert_eq!(a.allocate(), Some(PhysPageNum(13)));
    assert!(a.can_dealloc(y));
}

#[test]
fn frame_allocator_knows_which_frames_can_be_given_back() {
    let mut a = StackFrameAllocator::new();
    a.init(PhysPageNum(10), PhysPageNum(20));
    let x = a.allocate().unwrap();
    assert!(a.can_dealloc(x));
    assert!(!a.can_dealloc(PhysPageNum(11)));
    a.dealloc(x);
    assert!(!a.can_dealloc(x));
}

#[test]
fn frame_allocator_test_allocates_again_after_release() {
    // Five frames, all given back, then five frames again: the same frames return.
    let mut a = StackFrameAllocator::new();
    let mut mem = PhysMemory::new();
    a.init(PhysPageNum(0x80400), PhysPageNum(0x88000));
    let mut v: Vec<FrameTracker> = Vec::new();
    for _ in 0..5 {
        v.push(frame_alloc(&mut a, &mut mem).unwrap());
    }
    let first: Vec<usize> = v.iter().map(|f| f.ppn.0).collect();
    assert_eq!(first, vec![0x80400, 0x80401, 0x80402, 0x80403, 0x80404]);
    for f in v.drain(..) {
        frame_dealloc(&mut a, f);
    }
    for _ in 0..5 {
        v.push(frame_alloc(&mut a, &mut mem).unwrap());
    }
    let second: Vec<usize> = v.iter().map(|f| f.ppn.0).collect();
    assert_eq!(second, vec![0x80404, 0x80403, 0x80402, 0x80401, 0x80400]);
}

#[test]
fn frame_tracker_zeroes_its_frame() {
    let mut mem = PhysMemory::new();
    mem.write(PhysPageNum(3), 7, 0xdead);
    assert_eq!(mem.read(PhysPageNum(3), 7), 0xdead);
    let f = FrameTracker::new(PhysPageNum(3), &mut mem);
    assert_eq!(f.ppn, PhysPageNum(3));
    assert_eq!(mem.read(PhysPageNum(3), 7), 0);
}

#[test]
fn addresses_split_into_pages() {
    assert_eq!(VirtAddr(0x1234).floor(), VirtPageNum(1));
    assert_eq!(VirtAddr(0x1234).page_offset(), 0x234);
    assert_eq!(PhysAddr(0x2000).ceil(), PhysPageNum(2));
    assert_eq!(PhysAddr(0x2001).ceil(), PhysPageNum(3));
    assert_eq!(PhysAddr(0).ceil(), PhysPageNum(0));
    assert_eq!(PhysAddr(0x2fff).floor(), PhysPageNum(2));
    assert_eq!(VirtPageNum(3).to_addr(), VirtAddr(0x3000));
    let mut v = VirtPageNum(9);
    v.step();
    assert_eq!(v, VirtPageNum(10));
}

#[test]
fn page_numbers_give_three_indexes() {
    let vpn = VirtPageNum((3 << 18) | (5 << 9) | 7);
    assert_eq!(vpn.indexes(), [3, 5, 7]);
    assert_eq!(VirtPageNum(0x7ffffff).indexes(), [511, 511, 511]);
}

#[test]
fn page_table_entry_keeps_page_number_and_flags() {
    let flags = PTEFlags { bits: PTE_V | PTE_R | PTE_W };
    let e = PageTableEntry::new(PhysPageNum(0x80123), flags);
    assert_eq!(e.bits, (0x80123u64 << 10) | 7);
    assert_eq!(e.ppn(), PhysPageNum(0x80123));
    assert_eq!(e.flags(), flags);
    assert!(e.is_valid());
    assert!(e.readable());
    assert!(e.writable());
    assert!(!e.executable());
    let empty = PageTableEntry::empty();
    assert!(!empty.is_valid());
    assert_eq!(empty.ppn(), PhysPageNum(0));
}

#[test]
fn page_table_entry_page_number_is_44_bits() {
    let e = PageTableEntry { bits: u64::MAX };
    assert_eq!(e.ppn(), PhysPageNum(0xfff_ffff_ffff));
    assert_eq!(e.flags().bits, 0xff);
}

#[test]
fn pte_flags_set_operations() {
    let a = PTEFlags { bits: PTE_R | PTE_X };
    let b = PTEFlags { bits: PTE_X };
    assert!(a.contains(b));
    assert!(!b.contains(a));
    assert_eq!(a.union(PTEFlags { bits: PTE_V }).bits, 0b1011);
    assert_eq!(a.intersection(b), b);
    assert_eq!(PTEFlags::empty().bits, 0);
    assert_eq!(PTEFlags::from_bits(0x42), Some(PTEFlags { bits: 0x42 }));
}

#[test]
fn page_table_maps_translates_and_unmaps() {
    let mut a = StackFrameAllocator::new();
    a.init(PhysPageNum(0x100), PhysPageNum(0x200));
    let mut mem = PhysMemory::new();
    let mut pt = PageTable::new(&mut a, &mut mem);
    let vpn = VirtPageNum(0x12345);
    assert!(pt.translate(vpn, &mem).is_none());
    pt.map(vpn, PhysPageNum(0x777), PTEFlags { bits: PTE_R | PTE_W }, &mut a, &mut mem);
    let e = pt.translate(vpn, &mem).unwrap();
    assert!(e.is_valid());
    assert_eq!(e.ppn(), PhysPageNum(0x777));
    assert_eq!(e.flags().bits, PTE_V | PTE_R | PTE_W);
    // The root and the two tables made for the path.
    assert_eq!(a.allocate(), Some(PhysPageNum(0x103)));
    // A page in the same last-level table has an empty entry.
    let next = pt.translate(VirtPageNum(0x12346), &mem).unwrap();
    assert!(!next.is_valid());
    // A page elsewhere has no path.
    assert!(pt.translate(VirtPageNum(0x5000000), &mem).is_none());
    pt.unmap(vpn, &a, &mut mem);
    let e = pt.translate(vpn, &mem).unwrap();
    assert!(!e.is_valid());
    assert_eq!(e.bits, 0);
}

#[test]
fn page_table_mappings_do_not_disturb_each_other() {
    let mut a = StackFrameAllocator::new();
    a.init(PhysPageNum(0x100), PhysPageNum(0x200));
    let mut mem = PhysMemory::new();
    let mut pt = PageTable::new(&mut a, &mut mem);
    let pages = [0usize, 1, 511, 512, 0x40000, 0x7ffffff];
    for (i, p) in pages.iter().enumerate() {
        pt.map(VirtPageNum(*p), PhysPageNum(0x1000 + i), PTEFlags { bits: PTE_R }, &mut a, &mut mem);
    }
    for (i, p) in pages.iter().enumerate() {
        let e = pt.translate(VirtPageNum(*p), &mem).unwrap();
        assert_eq!(e.ppn(), PhysPageNum(0x1000 + i));
    }
    pt.unmap(VirtPageNum(512), &a, &mut mem);
    for (i, p) in pages.iter().enumerate() {
        let e = pt.translate(VirtPageNum(*p), &mem).unwrap();
        assert_eq!(e.is_valid(), *p != 512);
        if *p != 512 {
            assert_eq!(e.ppn(), PhysPageNum(0x1000 + i));
        }
    }
}

#[test]
fn page_table_token_names_the_root() {
    let mut a = StackFrameAllocator::new();
    a.init(PhysPageNum(0x80200), PhysPageNum(0x80300));
    let mut mem = PhysMemory::new();
    let pt = PageTable::new(&mut a, &mut mem);
    let token = pt.token();
    assert_eq!(token, (8usize << 60) | 0x80200);
    let again = PageTable::from_token(token);
    assert_eq!(again.token(), token);
}

#[test]
fn page_table_from_token_sees_the_same_mappings() {
    let mut a = StackFrameAllocator::new();
    a.init(PhysPageNum(0x100), PhysPageNum(0x200));
    let mut mem = PhysMemory::new();
    let mut pt = PageTable::new(&mut a, &mut mem);
    pt.map(VirtPageNum(42), PhysPageNum(0x999), PTEFlags { bits: PTE_R }, &mut a, &mut mem);
    let view = PageTable::from_token(pt.token());
    assert_eq!(view.translate(VirtPageNum(42), &mem).unwrap().ppn(), PhysPageNum(0x999));
}

#[test]
fn translated_byte_buffer_splits_at_page_boundaries() {
    let mut a = StackFrameAllocator::new();
    a.init(PhysPageNum(0x100), PhysPageNum(0x200));
    let mut mem = PhysMemory::new();
    let mut pt = PageTable::new(&mut a, &mut mem);
    pt.map(VirtPageNum(0x10), PhysPageNum(0x500), PTEFlags { bits: PTE_R | PTE_W }, &mut a, &mut mem);
    pt.map(VirtPageNum(0x11), PhysPageNum(0x600), PTEFlags { bits: PTE_R | PTE_W }, &mut a, &mut mem);
    pt.map(VirtPageNum(0x12), PhysPageNum(0x700), PTEFlags { bits: PTE_R | PTE_W }, &mut a, &mut mem);
    let token = pt.token();
    let v = translated_byte_buffer(token, 0x10ff0, 0x1020, &mem);
    assert_eq!(
        v,
        vec![
            FrameSlice { ppn: PhysPageNum(0x500), start: 0xff0, end: 0x1000 },
            FrameSlice { ppn: PhysPageNum(0x600), start: 0, end: 0x1000 },
            FrameSlice { ppn: PhysPageNum(0x700), start: 0, end: 0x10 },
        ]
    );
    let total: usize = v.iter().map(|s| s.end - s.start).sum();
    assert_eq!(total, 0x1020);
    let w = translated_byte_buffer(token, 0x11000, 0x1000, &mem);
    assert_eq!(w, vec![FrameSlice { ppn: PhysPageNum(0x600), start: 0, end: 0x1000 }]);
    let one = translated_byte_buffer(token, 0x10005, 3, &mem);
    assert_eq!(one, vec![FrameSlice { ppn: PhysPageNum(0x500), start: 5, end: 8 }]);
    assert!(translated_byte_buffer(token, 0x10005, 0, &mem).is_empty());
}
