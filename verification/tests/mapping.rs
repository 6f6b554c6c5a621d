use paging::addr::{PhysicalAddress, VirtualAddress};
use paging::flags::{EntryFlags, Flags, NO_EXECUTE, PRESENT, WRITABLE};
use paging::frames::{BumpAllocator, Frame, FrameAllocator, Page, PagingError, Size1GiB, Size2MiB, Size4KiB};
use paging::lifecycle::Tlb;
use paging::paging::{PageTableImpl, VirtualAddressEx};

fn rw_flags() -> Flags {
    Flags { writable: true, executable: false, user_accessible: false, cached: true }
}

fn fresh_space(allocator: &mut BumpAllocator) -> PageTableImpl {
    let p4_frame = allocator.allocate();
    let base = VirtualAddress::new(0xffff_8000_0000_0000).unwrap();
    PageTableImpl::new(p4_frame, base)
}

#[test]
fn map_then_translate_round_trips() {
    let mut allocator = BumpAllocator::new(0x1000);
    let mut tlb = Tlb::new();
    let mut table = fresh_space(&mut allocator);

    let va = VirtualAddress::new(0x4000_0000_0000).unwrap();
    let page = Page::<Size4KiB>::starts_with(va);
    let frame = Frame::<Size4KiB>::starts_with(PhysicalAddress::new(0x5000).unwrap());
    table.map(page, frame, rw_flags(), &mut allocator, &mut tlb).unwrap();

    // The mapped base and a sub-page offset both translate.
    assert_eq!(table.translate(va).unwrap().raw(), 0x5000);
    let inside = VirtualAddress::new(0x4000_0000_0123).unwrap();
    assert_eq!(table.translate(inside).unwrap().raw(), 0x5123);
}

#[test]
fn scenario_user_page_gets_expected_leaf() {
    // Frames for the three intermediate tables come out of the allocator at
    // 0x2000, 0x3000 and 0x4000 (0x1000 backs the top-level table).
    let mut allocator = BumpAllocator::new(0x1000);
    let mut tlb = Tlb::new();
    let mut table = fresh_space(&mut allocator);
    assert_eq!(allocator.next_base(), 0x2000);

    let va = VirtualAddress::new(0x4000_0000_0000).unwrap();
    assert_eq!(va.p4_index(), 128);
    assert_eq!(va.p3_index(), 0);
    assert_eq!(va.p2_index(), 0);
    assert_eq!(va.p1_index(), 0);

    let page = Page::<Size4KiB>::starts_with(va);
    let frame = Frame::<Size4KiB>::starts_with(PhysicalAddress::new(0x5000).unwrap());
    table.map(page, frame, rw_flags(), &mut allocator, &mut tlb).unwrap();
    assert_eq!(allocator.next_base(), 0x5000);

    let leaf = table.leaf_entry(va).unwrap();
    assert_eq!(leaf.address_bits(), 0x5000);
    assert_eq!(leaf.flags().bits(), PRESENT | WRITABLE | NO_EXECUTE);
    assert!(leaf.flags().contains(EntryFlags::from_bits_raw(PRESENT | WRITABLE | NO_EXECUTE)));
    assert_eq!(table.translate(va).unwrap().raw(), 0x5000);
}

#[test]
fn double_map_fails_and_keeps_first_mapping() {
    let mut allocator = BumpAllocator::new(0x1000);
    let mut tlb = Tlb::new();
    let mut table = fresh_space(&mut allocator);

    let va = VirtualAddress::new(0x4000_0000_0000).unwrap();
    let page = Page::<Size4KiB>::starts_with(va);
    let first = Frame::<Size4KiB>::starts_with(PhysicalAddress::new(0x5000).unwrap());
    table.map(page, first, rw_flags(), &mut allocator, &mut tlb).unwrap();

    let page_again = Page::<Size4KiB>::starts_with(va);
    let second = Frame::<Size4KiB>::starts_with(PhysicalAddress::new(0x9000).unwrap());
    let r = table.map(page_again, second, rw_flags(), &mut allocator, &mut tlb);
    assert_eq!(r, Err(PagingError::AlreadyMapped));

    // The first mapping is untouched.
    assert_eq!(table.translate(va).unwrap().raw(), 0x5000);
}

#[test]
fn unmap_of_never_mapped_page_is_absent() {
    let mut allocator = BumpAllocator::new(0x1000);
    let mut tlb = Tlb::new();
    let mut table = fresh_space(&mut allocator);

    let va = VirtualAddress::new(0x4000_0000_0000).unwrap();
    let page = Page::<Size4KiB>::starts_with(va);
    let r: Option<Frame<Size4KiB>> = table.unmap(page, &mut tlb);
    assert!(r.is_none());
}

#[test]
fn unmap_returns_the_mapped_frame() {
    let mut allocator = BumpAllocator::new(0x1000);
    let mut tlb = Tlb::new();
    let mut table = fresh_space(&mut allocator);

    let va = VirtualAddress::new(0x4000_0000_0000).unwrap();
    let page = Page::<Size4KiB>::starts_with(va);
    let frame = Frame::<Size4KiB>::starts_with(PhysicalAddress::new(0x5000).unwrap());
    table.map(page, frame, rw_flags(), &mut allocator, &mut tlb).unwrap();

    let page_again = Page::<Size4KiB>::starts_with(va);
    let taken = table.unmap(page_again, &mut tlb).unwrap();
    assert_eq!(taken.start().raw(), 0x5000);
    assert!(table.translate(va).is_none());

    // The slot is free again afterwards.
    let page_third = Page::<Size4KiB>::starts_with(va);
    let other = Frame::<Size4KiB>::starts_with(PhysicalAddress::new(0x7000).unwrap());
    table.map(page_third, other, rw_flags(), &mut allocator, &mut tlb).unwrap();
    assert_eq!(table.translate(va).unwrap().raw(), 0x7000);
}

#[test]
fn huge_leaf_blocks_child_table_creation_without_allocating() {
    let mut allocator = BumpAllocator::new(0x1000);
    let mut tlb = Tlb::new();
    let mut table = fresh_space(&mut allocator);

    let block = VirtualAddress::new(0x4000_0000_0000).unwrap();
    let big_page = Page::<Size2MiB>::starts_with(block);
    let big_frame = Frame::<Size2MiB>::starts_with(PhysicalAddress::new(0x20_0000).unwrap());
    table.map(big_page, big_frame, rw_flags(), &mut allocator, &mut tlb).unwrap();

    // The huge leaf covers the small page; mapping inside it must fail with
    // AlreadyMapped and must not draw a frame from the allocator.
    let before = allocator.next_base();
    let small = Page::<Size4KiB>::starts_with(VirtualAddress::new(0x4000_0000_3000).unwrap());
    let small_frame = Frame::<Size4KiB>::starts_with(PhysicalAddress::new(0x8000).unwrap());
    let r = table.map(small, small_frame, rw_flags(), &mut allocator, &mut tlb);
    assert_eq!(r, Err(PagingError::AlreadyMapped));
    assert_eq!(allocator.next_base(), before);

    // The huge mapping still translates, with its in-block offset.
    let inside = VirtualAddress::new(0x4000_0012_3456).unwrap();
    assert_eq!(table.translate(inside).unwrap().raw(), 0x20_0000 + 0x12_3456);
}

#[test]
fn gigabyte_pages_are_unsupported() {
    let mut allocator = BumpAllocator::new(0x1000);
    let mut tlb = Tlb::new();
    let mut table = fresh_space(&mut allocator);

    let va = VirtualAddress::new(0x40_0000_0000).unwrap();
    let page = Page::<Size1GiB>::starts_with(va);
    let frame = Frame::<Size1GiB>::starts_with(PhysicalAddress::new(0x4000_0000).unwrap());
    let r = table.map(page, frame, rw_flags(), &mut allocator, &mut tlb);
    assert_eq!(r, Err(PagingError::UnsupportedPageSize));
    assert!(table.translate(va).is_none());
}

#[test]
fn unmap_under_huge_leaf_is_absent() {
    let mut allocator = BumpAllocator::new(0x1000);
    let mut tlb = Tlb::new();
    let mut table = fresh_space(&mut allocator);

    let block = VirtualAddress::new(0x4000_0000_0000).unwrap();
    let big_page = Page::<Size2MiB>::starts_with(block);
    let big_frame = Frame::<Size2MiB>::starts_with(PhysicalAddress::new(0x20_0000).unwrap());
    table.map(big_page, big_frame, rw_flags(), &mut allocator, &mut tlb).unwrap();

    let small = Page::<Size4KiB>::starts_with(VirtualAddress::new(0x4000_0000_3000).unwrap());
    let r: Option<Frame<Size4KiB>> = table.unmap(small, &mut tlb);
    assert!(r.is_none());
}
