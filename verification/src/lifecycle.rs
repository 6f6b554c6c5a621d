//! The per-core paging state an address space coordinates with: the paging
//! root register and the translation cache, plus the active/inactive
//! address-space lifecycle built on them.
//!
//! The two structures model the hardware state this layer is responsible
//! for keeping consistent; the privileged register write and the
//! invalidation instruction themselves sit outside the library.

use vstd::prelude::*;

use crate::addr::{spec_align_down, VirtualAddress};
use crate::frames::{Frame, Size4KiB};
use crate::paging::{PageTableImpl, RECURSIVE_ENTRY};

verus! {

/// The translation cache of one core: the set of page translations the
/// hardware may answer from without walking the tables. Structural table
/// changes must evict the affected page for the cache to stay consistent.
pub struct Tlb {
    /// Possibly cached translations, keyed by 4 KiB page base.
    pub cached: Ghost<Map<u64, u64>>,
}

impl Tlb {
    /// A cache with nothing in it.
    pub fn new() -> (r: Tlb)
        ensures
            r.cached@ == Map::<u64, u64>::empty(),
    {
        Tlb { cached: Ghost(Map::empty()) }
    }

    /// Evict the translation of the page holding `address`.
    pub fn invalidate_page(&mut self, address: VirtualAddress)
        ensures
            final(self).cached@ == old(self).cached@.remove(spec_align_down(address@, 0x1000)),
    {
        let ghost base = spec_align_down(address@, 0x1000);
        proof {
            self.cached@ = self.cached@.remove(base);
        }
    }

    /// Evict every non-global translation.
    pub fn flush(&mut self)
        ensures
            final(self).cached@ == Map::<u64, u64>::empty(),
    {
        proof {
            self.cached@ = Map::empty();
        }
    }
}

/// The paging state of one core: the physical base of the top-level table
/// currently installed in the paging root register.
pub struct Cpu {
    /// The installed top-level table's physical base.
    pub cr3: u64,
}

/// An address space that is constructed and maintained but not installed on
/// the core. Switching is the only transition to the active state.
pub struct InactivePageTable {
    /// The owned tables of the space.
    pub table: PageTableImpl,
}

impl InactivePageTable {
    /// Wrap an address space that is not currently installed.
    pub fn new(table: PageTableImpl) -> (r: InactivePageTable)
        ensures
            r.table == table,
    {
        InactivePageTable { table }
    }

    /// A fresh set of tables in the given frame, accessed through an
    /// identity mapping (physical base zero), whose reserved slot points
    /// back at its own frame so that, once installed, the hierarchy is
    /// reachable through virtual addressing alone.
    pub fn new_with_recursive_mapping(frame: Frame<Size4KiB>, recursive_entry: u16) -> (r:
        InactivePageTable)
        requires
            frame.wf(),
            recursive_entry < 512,
        ensures
            r.table.wf(),
            r.table.spec_p4_frame() == frame.spec_start(),
            r.table.spec_physical_base() == 0,
            r.table.spec_p4_entry(recursive_entry as int).is_present(),
            !r.table.spec_p4_entry(recursive_entry as int).is_huge(),
            r.table.spec_p4_entry(recursive_entry as int).spec_addr() == frame.spec_start(),
            r.table.spec_p4_entry(recursive_entry as int)@ == (frame.spec_start()
                & crate::entry::ADDRESS_MASK) | crate::flags::WRITABLE | crate::flags::PRESENT,
            forall|i: int|
                0 <= i < 512 && i != recursive_entry ==> (#[trigger] r.table.spec_p4_entry(i))@
                    == 0,
            forall|va: u64| (#[trigger] r.table.translate_spec(va)) is None,
    {
        proof {
            crate::addr::lemma_canonicalise_fixes_canonical(0);
        }
        let mut table = PageTableImpl::new(frame, VirtualAddress::new_unchecked(0));
        table.install_recursive_entry(recursive_entry as usize);
        InactivePageTable { table }
    }

    /// The mapper for this space's tables, for mutation while inactive.
    pub fn mapper(&mut self) -> (r: &mut PageTableImpl)
        ensures
            *r == old(self).table,
            final(self).table == *final(r),
    {
        &mut self.table
    }

    /// Install this space's top-level frame as the core's paging root,
    /// becoming the active space; the previously installed root's physical
    /// base is handed back so the caller can keep a handle on the old
    /// space. The switch discards all non-global cached translations.
    pub fn switch_to(self, cpu: &mut Cpu, tlb: &mut Tlb) -> (r: (ActivePageTable, u64))
        ensures
            r.0.table == self.table,
            final(cpu).cr3 == self.table.spec_p4_frame(),
            final(tlb).cached@ == Map::<u64, u64>::empty(),
            r.1 == old(cpu).cr3,
    {
        let previous = cpu.cr3;
        self.table.switch_to(cpu, tlb);
        (ActivePageTable { table: self.table }, previous)
    }
}

/// The address space currently installed on the core. Exactly one space is
/// active per core; the mapping operations of this layer assume they run
/// with that exclusivity already guaranteed by the caller.
pub struct ActivePageTable {
    /// The owned tables of the space.
    pub table: PageTableImpl,
}

impl ActivePageTable {
    /// Wrap the address space whose top-level frame is installed.
    pub fn new(table: PageTableImpl) -> (r: ActivePageTable)
        ensures
            r.table == table,
    {
        ActivePageTable { table }
    }

    /// The mapper for the active tables.
    pub fn mapper(&mut self) -> (r: &mut PageTableImpl)
        ensures
            *r == old(self).table,
            final(self).table == *final(r),
    {
        &mut self.table
    }

    /// Redirect the reserved self-reference slot of the active top-level
    /// table at an inactive space's top-level frame and flush the cache:
    /// the start of the window in which the inactive hierarchy is reachable
    /// through the active one's virtual addressing. While the slot is
    /// redirected the active table cannot see itself, so no other walk of
    /// this space may run until `end_borrow` restores it.
    ///
    /// Every `begin_borrow` must be paired with an `end_borrow` on every
    /// path out of the window, the error path included, before any other
    /// operation on this space: the restore-on-all-paths discipline is the
    /// caller's duty, which these two contracts state but cannot enforce
    /// across the window.
    pub fn begin_borrow(&mut self, inactive_frame: u64, tlb: &mut Tlb)
        requires
            old(self).table.spec_p4().len() == 512,
            inactive_frame % 0x1000 == 0,
            inactive_frame < crate::addr::MAX_PHYSICAL_ADDRESS,
        ensures
            final(self).table.spec_p4().len() == 512,
            final(self).table.spec_p4_entry(RECURSIVE_ENTRY as int).is_present(),
            final(self).table.spec_p4_entry(RECURSIVE_ENTRY as int).spec_addr() == inactive_frame,
            final(self).table.spec_p4_entry(RECURSIVE_ENTRY as int)@ == (inactive_frame
                & crate::entry::ADDRESS_MASK) | crate::flags::WRITABLE | crate::flags::PRESENT,
            forall|i: int|
                0 <= i < 512 && i != RECURSIVE_ENTRY ==> final(self).table.spec_p4_entry(i) == old(
                    self,
                ).table.spec_p4_entry(i),
            final(self).table.spec_p4_frame() == old(self).table.spec_p4_frame(),
            final(self).table.spec_physical_base() == old(self).table.spec_physical_base(),
            final(tlb).cached@ == Map::<u64, u64>::empty(),
    {
        self.table.point_recursive_slot(inactive_frame);
        tlb.flush();
    }

    /// Restore the reserved self-reference slot to this table's own frame
    /// and flush the cache again: the unconditional end of the borrow
    /// window, after which the active table sees itself as before.
    pub fn end_borrow(&mut self, tlb: &mut Tlb)
        requires
            old(self).table.spec_p4().len() == 512,
            old(self).table.spec_p4_frame() % 0x1000 == 0,
        ensures
            final(self).table.spec_p4().len() == 512,
            final(self).table.spec_p4_entry(RECURSIVE_ENTRY as int).is_present(),
            final(self).table.spec_p4_entry(RECURSIVE_ENTRY as int).spec_addr() == old(
                self,
            ).table.spec_p4_frame(),
            final(self).table.spec_p4_entry(RECURSIVE_ENTRY as int)@ == (old(
                self,
            ).table.spec_p4_frame() & crate::entry::ADDRESS_MASK) | crate::flags::WRITABLE
                | crate::flags::PRESENT,
            forall|i: int|
                0 <= i < 512 && i != RECURSIVE_ENTRY ==> final(self).table.spec_p4_entry(i) == old(
                    self,
                ).table.spec_p4_entry(i),
            final(self).table.spec_p4_frame() == old(self).table.spec_p4_frame(),
            final(self).table.spec_physical_base() == old(self).table.spec_physical_base(),
            final(tlb).cached@ == Map::<u64, u64>::empty(),
    {
        let own = self.table.p4_frame_base();
        self.table.point_recursive_slot(own);
        tlb.flush();
    }
}

} // verus!
