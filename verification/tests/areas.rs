use paging::addr::{PhysicalAddress, VirtualAddress};
use paging::flags::Flags;
use paging::frames::{BumpAllocator, FrameAllocator};
use paging::lifecycle::Tlb;
use paging::paging::PageTableImpl;

fn rw_flags() -> Flags {
    Flags { writable: true, executable: false, user_accessible: false, cached: true }
}

#[test]
fn area_straddling_2mib_boundaries_uses_mixed_page_sizes() {
    let mut allocator = BumpAllocator::new(0x1000);
    let mut tlb = Tlb::new();
    let p4_frame = allocator.allocate();
    let mut table =
        PageTableImpl::new(p4_frame, VirtualAddress::new(0xffff_8000_0000_0000).unwrap());

    // Neither end is 2 MiB aligned: one 4 KiB prefix page up to 0x20_0000,
    // one whole 2 MiB block, and one 4 KiB suffix page. The physical range
    // keeps the same distance from its 2 MiB grid.
    let vs: u64 = 0x1ff000;
    let ps: u64 = 0x5ff000;
    let size: u64 = 0x20_2000;
    table
        .map_area(
            VirtualAddress::new(vs).unwrap(),
            PhysicalAddress::new(ps).unwrap(),
            size,
            rw_flags(),
            &mut allocator,
            &mut tlb,
        )
        .unwrap();

    // Every 4 KiB boundary across the whole region translates with the
    // constant physical-to-virtual distance.
    let mut va: u64 = vs;
    while va < vs + size {
        let got = table.translate(VirtualAddress::new(va).unwrap()).unwrap();
        assert_eq!(got.raw(), ps + (va - vs));
        va += 0x1000;
    }
    // Region start, the 2 MiB boundaries, and the last byte.
    assert_eq!(table.translate(VirtualAddress::new(vs).unwrap()).unwrap().raw(), ps);
    assert_eq!(
        table.translate(VirtualAddress::new(0x20_0000).unwrap()).unwrap().raw(),
        ps + (0x20_0000 - vs)
    );
    assert_eq!(
        table.translate(VirtualAddress::new(0x40_0000).unwrap()).unwrap().raw(),
        ps + (0x40_0000 - vs)
    );
    assert_eq!(
        table.translate(VirtualAddress::new(vs + size - 1).unwrap()).unwrap().raw(),
        ps + size - 1
    );
    // One byte past the region does not translate.
    assert!(table.translate(VirtualAddress::new(vs + size).unwrap()).is_none());
    // One byte below the region does not translate.
    assert!(table.translate(VirtualAddress::new(vs - 1).unwrap()).is_none());

    // The prefix is a 4 KiB leaf; the middle is covered by a 2 MiB leaf, so
    // no lowest-level entry exists there.
    assert!(table.leaf_entry(VirtualAddress::new(vs).unwrap()).is_some());
    assert!(table.leaf_entry(VirtualAddress::new(0x20_0000).unwrap()).is_none());
    assert!(table.leaf_entry(VirtualAddress::new(vs + size - 0x1000).unwrap()).is_some());
}

#[test]
fn small_area_uses_only_small_pages() {
    let mut allocator = BumpAllocator::new(0x1000);
    let mut tlb = Tlb::new();
    let p4_frame = allocator.allocate();
    let mut table =
        PageTableImpl::new(p4_frame, VirtualAddress::new(0xffff_8000_0000_0000).unwrap());

    let vs: u64 = 0x40_0000_0000;
    let ps: u64 = 0x10_0000;
    let size: u64 = 0x3000;
    table
        .map_area(
            VirtualAddress::new(vs).unwrap(),
            PhysicalAddress::new(ps).unwrap(),
            size,
            rw_flags(),
            &mut allocator,
            &mut tlb,
        )
        .unwrap();

    let mut va: u64 = vs;
    while va < vs + size {
        assert_eq!(table.translate(VirtualAddress::new(va).unwrap()).unwrap().raw(), ps + (va - vs));
        assert!(table.leaf_entry(VirtualAddress::new(va).unwrap()).is_some());
        va += 0x1000;
    }
    assert!(table.translate(VirtualAddress::new(vs + size).unwrap()).is_none());
}

#[test]
fn aligned_area_is_one_huge_block() {
    let mut allocator = BumpAllocator::new(0x1000);
    let mut tlb = Tlb::new();
    let p4_frame = allocator.allocate();
    let mut table =
        PageTableImpl::new(p4_frame, VirtualAddress::new(0xffff_8000_0000_0000).unwrap());

    let vs: u64 = 0x20_0000;
    let ps: u64 = 0x60_0000;
    let size: u64 = 0x20_0000;
    table
        .map_area(
            VirtualAddress::new(vs).unwrap(),
            PhysicalAddress::new(ps).unwrap(),
            size,
            rw_flags(),
            &mut allocator,
            &mut tlb,
        )
        .unwrap();

    assert_eq!(table.translate(VirtualAddress::new(vs).unwrap()).unwrap().raw(), ps);
    assert_eq!(
        table.translate(VirtualAddress::new(vs + 0x12_3456).unwrap()).unwrap().raw(),
        ps + 0x12_3456
    );
    // A fully aligned area is a single huge leaf: no lowest-level table.
    assert!(table.leaf_entry(VirtualAddress::new(vs).unwrap()).is_none());
}
