use paging::addr::{PhysicalAddress, VirtualAddress};
use paging::flags::Flags;
use paging::frames::{BumpAllocator, Frame, FrameAllocator, Page, Size4KiB};
use paging::lifecycle::{ActivePageTable, Cpu, InactivePageTable, Tlb};
use paging::memory;
use paging::paging::{PageTableImpl, RECURSIVE_ENTRY, KERNEL_P4_ENTRY};

fn rw_flags() -> Flags {
    Flags { writable: true, executable: false, user_accessible: false, cached: true }
}

#[test]
fn switch_installs_the_top_level_frame() {
    let mut allocator = BumpAllocator::new(0x7000);
    let p4_frame = allocator.allocate();
    let table = PageTableImpl::new(p4_frame, VirtualAddress::new(0xffff_8000_0000_0000).unwrap());
    let inactive = InactivePageTable::new(table);

    let mut cpu = Cpu { cr3: 0x1234000 };
    let mut tlb = Tlb::new();
    let (active, previous) = inactive.switch_to(&mut cpu, &mut tlb);
    assert_eq!(previous, 0x1234000);
    assert_eq!(cpu.cr3, 0x7000);
    let mut active: ActivePageTable = active;
    assert_eq!(active.mapper().p4_frame_base(), 0x7000);
}

#[test]
fn recursive_mapping_points_back_at_its_own_frame() {
    let frame = Frame::<Size4KiB>::starts_with(PhysicalAddress::new(0x9000).unwrap());
    let mut inactive = InactivePageTable::new_with_recursive_mapping(frame, RECURSIVE_ENTRY as u16);
    let mapper = inactive.mapper();
    let entry = mapper.p4().get_entry(RECURSIVE_ENTRY);
    assert!(!entry.is_unused());
    assert_eq!(entry.address_bits(), 0x9000);
    // The self-reference maps no address by itself.
    assert!(mapper.translate(VirtualAddress::new(0x1000).unwrap()).is_none());
}

#[test]
fn recursive_borrow_redirects_and_restores() {
    let own = Frame::<Size4KiB>::starts_with(PhysicalAddress::new(0x9000).unwrap());
    let inactive = InactivePageTable::new_with_recursive_mapping(own, RECURSIVE_ENTRY as u16);
    let mut cpu = Cpu { cr3: 0 };
    let mut tlb = Tlb::new();
    let (mut active, _previous) = inactive.switch_to(&mut cpu, &mut tlb);
    assert_eq!(active.mapper().p4().get_entry(RECURSIVE_ENTRY).address_bits(), 0x9000);

    // The borrow window: the reserved slot points at the other space's
    // frame, and the unconditional restore brings the self-reference back.
    active.begin_borrow(0xb000, &mut tlb);
    assert_eq!(active.mapper().p4().get_entry(RECURSIVE_ENTRY).address_bits(), 0xb000);
    active.end_borrow(&mut tlb);
    assert_eq!(active.mapper().p4().get_entry(RECURSIVE_ENTRY).address_bits(), 0x9000);
}

#[test]
fn new_address_space_shares_the_kernel_slot() {
    let mut allocator = BumpAllocator::new(0x1000);
    let mut tlb = Tlb::new();
    let kernel_frame = allocator.allocate();
    let mut kernel =
        PageTableImpl::new(kernel_frame, VirtualAddress::new(0xffff_8000_0000_0000).unwrap());

    // Give the kernel a mapping under its reserved top-level slot.
    let kernel_va = VirtualAddress::from_page_table_offsets(KERNEL_P4_ENTRY as u16, 0, 0, 0, 0);
    let page = Page::<Size4KiB>::starts_with(kernel_va);
    let target = Frame::<Size4KiB>::starts_with(PhysicalAddress::new(0x80_0000).unwrap());
    kernel.map(page, target, rw_flags(), &mut allocator, &mut tlb).unwrap();

    let child = PageTableImpl::new_with_kernel_mapped(&kernel, &mut allocator);
    let kernel_entry = kernel.p4().get_entry(KERNEL_P4_ENTRY);
    let child_entry = child.p4().get_entry(KERNEL_P4_ENTRY);
    assert_eq!(child_entry.address_bits(), kernel_entry.address_bits());
    assert!(!child_entry.is_unused());
    // Every other slot of the fresh space is empty.
    assert!(child.p4().get_entry(0).is_unused());
    assert!(child.p4().get_entry(RECURSIVE_ENTRY).is_unused());

    // The shared subtree stays owned by the kernel's space, so the child's
    // own walk resolves nothing there; through the kernel's tables the
    // region translates identically in both spaces.
    assert!(child.translate(kernel_va).is_none());
    let offset = VirtualAddress::new(kernel_va.raw() + 0x123).unwrap();
    assert_eq!(
        child.translate_shared(&kernel, offset).unwrap().raw(),
        kernel.translate(offset).unwrap().raw()
    );
    assert_eq!(child.translate_shared(&kernel, offset).unwrap().raw(), 0x80_0123);
}

#[test]
fn bump_allocator_hands_out_consecutive_frames() {
    let mut allocator = BumpAllocator::new(0x1000);
    let a = allocator.allocate();
    let b = allocator.allocate();
    let c = allocator.allocate();
    assert_eq!(a.start().raw(), 0x1000);
    assert_eq!(b.start().raw(), 0x2000);
    assert_eq!(c.start().raw(), 0x3000);
    assert_eq!(allocator.next_base(), 0x4000);
    allocator.deallocate(b);
    assert_eq!(allocator.next_base(), 0x4000);
}

#[test]
fn frame_numbers_and_ranges() {
    let f = memory::Frame::get_containing_frame(0x2345);
    assert_eq!(f.get_start_address(), 0x2000);

    let start = memory::Frame::get_containing_frame(0x2000);
    let end = memory::Frame::get_containing_frame(0x5000);
    let mut iter = memory::Frame::range_inclusive(start, end);
    let mut starts: Vec<usize> = Vec::new();
    while let Some(frame) = iter.next() {
        starts.push(frame.get_start_address());
    }
    assert_eq!(starts, vec![0x2000, 0x3000, 0x4000, 0x5000]);

    let lone = memory::Frame::get_containing_frame(0x7000);
    let copy = lone.clone();
    assert_eq!(copy.get_start_address(), 0x7000);
    assert_eq!(lone, copy);
}

#[test]
fn tlb_operations_run() {
    let mut tlb = Tlb::new();
    tlb.invalidate_page(VirtualAddress::new(0x4000_0000_0000).unwrap());
    tlb.flush();
}
