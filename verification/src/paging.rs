//! The address space: one top-level table plus the stores of child tables it
//! owns, with the translation, mapping and unmapping algorithms over them.
//!
//! Each store is keyed by the physical base of a table's backing frame, so a
//! parent entry's packed address resolves its child exactly as the hardware
//! walk does. The well-formedness invariant keeps the tree a tree: distinct
//! present entries of one level never share a child frame, which is what
//! makes a mapping change invisible to every other translation.

use std::collections::HashMap;

use vstd::prelude::*;

use crate::addr::{
    is_canonical, lemma_indices_in_range, spec_p1_index, spec_p2_index, spec_p3_index,
    spec_p4_index, PhysicalAddress, VirtualAddress, MAX_PHYSICAL_ADDRESS,
};
use crate::entry::{lemma_packed_entry, Entry, ADDRESS_MASK};
use crate::flags::{spec_flags_to_bits, EntryFlags, Flags, HUGE_PAGE, PRESENT, WRITABLE};
use crate::frames::{
    Frame, FrameAllocator, FrameSize, Page, PagingError, Size2MiB, Size4KiB, SIZE_1GIB, SIZE_2MIB,
    SIZE_4KIB,
};
use crate::lifecycle::{Cpu, Tlb};
use crate::table::{Level1, Level2, Level3, Level4, Table};

verus! {

broadcast use vstd::std_specs::hash::group_hash_axioms;

/// The reserved top-level slot through which every address space shares the
/// kernel's mapping.
pub const KERNEL_P4_ENTRY: usize = 511;

/// The reserved top-level slot for the self-referential entry of a
/// recursively mapped table.
pub const RECURSIVE_ENTRY: usize = 510;

/// The virtual base at which the whole of physical memory is visible once
/// the kernel's permanent mapping is installed.
pub const PHYSICAL_MAPPING_BASE: u64 = 0xffff_8000_0000_0000;

/// Extraction of the four 9-bit table indices from an address.
pub trait VirtualAddressEx: Sized + Copy {
    /// The raw bits the indices are read from.
    spec fn spec_bits(self) -> u64;

    /// Bits 39..=47.
    fn p4_index(self) -> (r: usize)
        ensures
            r == spec_p4_index(self.spec_bits()),
            r < 512,
    ;

    /// Bits 30..=38.
    fn p3_index(self) -> (r: usize)
        ensures
            r == spec_p3_index(self.spec_bits()),
            r < 512,
    ;

    /// Bits 21..=29.
    fn p2_index(self) -> (r: usize)
        ensures
            r == spec_p2_index(self.spec_bits()),
            r < 512,
    ;

    /// Bits 12..=20.
    fn p1_index(self) -> (r: usize)
        ensures
            r == spec_p1_index(self.spec_bits()),
            r < 512,
    ;
}

impl VirtualAddressEx for VirtualAddress {
    open spec fn spec_bits(self) -> u64 {
        self@
    }

    fn p4_index(self) -> (r: usize) {
        proof {
            lemma_indices_in_range(self@);
        }
        ((self.raw() >> 39) & 0x1ff) as usize
    }

    fn p3_index(self) -> (r: usize) {
        proof {
            lemma_indices_in_range(self@);
        }
        ((self.raw() >> 30) & 0x1ff) as usize
    }

    fn p2_index(self) -> (r: usize) {
        proof {
            lemma_indices_in_range(self@);
        }
        ((self.raw() >> 21) & 0x1ff) as usize
    }

    fn p1_index(self) -> (r: usize) {
        proof {
            lemma_indices_in_range(self@);
        }
        ((self.raw() >> 12) & 0x1ff) as usize
    }
}

/// One address space: the top-level table, the stores of owned child tables
/// at each lower level, and the virtual base from which the environment this
/// space is maintained in reaches physical memory.
pub struct PageTableImpl {
    p4_frame: Frame<Size4KiB>,
    physical_base: VirtualAddress,
    p4: Table<Level4>,
    p3s: HashMap<u64, Table<Level3>>,
    p2s: HashMap<u64, Table<Level2>>,
    p1s: HashMap<u64, Table<Level1>>,
}

impl PageTableImpl {
    /// The physical base of the top-level table's frame.
    pub closed spec fn spec_p4_frame(self) -> u64 {
        self.p4_frame.spec_start()
    }

    /// The virtual base at which physical memory is reachable in the
    /// maintaining environment.
    pub closed spec fn spec_physical_base(self) -> u64 {
        self.physical_base@
    }

    /// The top-level table's entries.
    pub closed spec fn spec_p4(self) -> Seq<Entry> {
        self.p4@
    }

    /// The top-level entry at slot `i`.
    pub closed spec fn spec_p4_entry(self, i: int) -> Entry {
        self.p4@[i]
    }

    /// Structural well-formedness: tables have 512 well-formed entries, huge
    /// leaves appear only at the second level (and 2 MiB aligned), and
    /// distinct present entries of one level never share a child frame.
    pub closed spec fn wf(self) -> bool {
        &&& self.p4.wf()
        &&& forall|i: int| 0 <= i < 512 ==> !(#[trigger] self.p4@[i]).is_huge()
        &&& forall|k: u64| #[trigger] self.p3s@.contains_key(k) ==> self.p3s@[k].wf()
        &&& forall|k: u64, i: int|
            self.p3s@.contains_key(k) && 0 <= i < 512 ==> !(#[trigger] self.p3s@[k]@[i]).is_huge()
        &&& forall|k: u64| #[trigger] self.p2s@.contains_key(k) ==> self.p2s@[k].wf()
        &&& forall|k: u64, i: int|
            self.p2s@.contains_key(k) && 0 <= i < 512 && (#[trigger] self.p2s@[k]@[i]).is_huge()
                ==> self.p2s@[k]@[i].spec_addr() % SIZE_2MIB == 0
        &&& forall|k: u64| #[trigger] self.p1s@.contains_key(k) ==> self.p1s@[k].wf()
        &&& forall|i: int, j: int|
            0 <= i < 512 && 0 <= j < 512 && i != j && (#[trigger] self.p4@[i]).is_present() && (
            #[trigger] self.p4@[j]).is_present() ==> self.p4@[i].spec_addr()
                != self.p4@[j].spec_addr()
        &&& forall|k1: u64, i1: int, k2: u64, i2: int|
            self.p3s@.contains_key(k1) && self.p3s@.contains_key(k2) && 0 <= i1 < 512 && 0 <= i2
                < 512 && (k1 != k2 || i1 != i2) && (#[trigger] self.p3s@[k1]@[i1]).is_present()
                && (#[trigger] self.p3s@[k2]@[i2]).is_present() ==> self.p3s@[k1]@[i1].spec_addr()
                != self.p3s@[k2]@[i2].spec_addr()
        &&& forall|k1: u64, i1: int, k2: u64, i2: int|
            self.p2s@.contains_key(k1) && self.p2s@.contains_key(k2) && 0 <= i1 < 512 && 0 <= i2
                < 512 && (k1 != k2 || i1 != i2) && (#[trigger] self.p2s@[k1]@[i1]).is_present()
                && (#[trigger] self.p2s@[k2]@[i2]).is_present() && !self.p2s@[k1]@[i1].is_huge()
                && !self.p2s@[k2]@[i2].is_huge() ==> self.p2s@[k1]@[i1].spec_addr()
                != self.p2s@[k2]@[i2].spec_addr()
    }

    /// Every frame this space relies on — the backing frames of its tables
    /// and every child frame its present entries point at — lies inside
    /// `allocated`. A frame the allocator has never handed out therefore
    /// collides with none of them.
    pub closed spec fn frames_ok(self, allocated: Set<u64>) -> bool {
        &&& allocated.contains(self.spec_p4_frame())
        &&& forall|k: u64| #[trigger] self.p3s@.contains_key(k) ==> allocated.contains(k)
        &&& forall|k: u64| #[trigger] self.p2s@.contains_key(k) ==> allocated.contains(k)
        &&& forall|k: u64| #[trigger] self.p1s@.contains_key(k) ==> allocated.contains(k)
        &&& forall|i: int|
            0 <= i < 512 && (#[trigger] self.p4@[i]).is_present() ==> allocated.contains(
                self.p4@[i].spec_addr(),
            )
        &&& forall|k: u64, i: int|
            self.p3s@.contains_key(k) && 0 <= i < 512 && (#[trigger] self.p3s@[k]@[i]).is_present()
                ==> allocated.contains(self.p3s@[k]@[i].spec_addr())
        &&& forall|k: u64, i: int|
            self.p2s@.contains_key(k) && 0 <= i < 512 && (#[trigger] self.p2s@[k]@[i]).is_present()
                && !self.p2s@[k]@[i].is_huge() ==> allocated.contains(
                self.p2s@[k]@[i].spec_addr(),
            )
    }

    /// The walk below a first-level table at frame `a1`.
    pub closed spec fn tr1(self, a1: u64, va: u64) -> Option<u64> {
        if !self.p1s@.contains_key(a1) {
            None
        } else {
            let e = self.p1s@[a1]@[spec_p1_index(va) as int];
            if e.is_present() {
                Some((e.spec_addr() + va % SIZE_4KIB) as u64)
            } else {
                None
            }
        }
    }

    /// The walk below a second-level table at frame `a2`.
    pub closed spec fn tr2(self, a2: u64, va: u64) -> Option<u64> {
        if !self.p2s@.contains_key(a2) {
            None
        } else {
            let e = self.p2s@[a2]@[spec_p2_index(va) as int];
            if !e.is_present() {
                None
            } else if e.is_huge() {
                Some((e.spec_addr() + va % SIZE_2MIB) as u64)
            } else {
                self.tr1(e.spec_addr(), va)
            }
        }
    }

    /// The walk below a third-level table at frame `a3`.
    pub closed spec fn tr3(self, a3: u64, va: u64) -> Option<u64> {
        if !self.p3s@.contains_key(a3) {
            None
        } else {
            let e = self.p3s@[a3]@[spec_p3_index(va) as int];
            if e.is_present() {
                self.tr2(e.spec_addr(), va)
            } else {
                None
            }
        }
    }

    /// What this address space translates `va` to: the physical address
    /// reached by the four-level walk, or nothing where the walk hits an
    /// absent entry or a frame this space does not own.
    pub closed spec fn translate_spec(self, va: u64) -> Option<u64> {
        let e = self.p4@[spec_p4_index(va) as int];
        if e.is_present() {
            self.tr3(e.spec_addr(), va)
        } else {
            None
        }
    }

    /// What a walk starting at this space's top level and resolving child
    /// frames in `host`'s stores translates `va` to. This is how a subtree
    /// shared from another address space (the kernel's reserved slot)
    /// translates: the slot's frame belongs to `host`, so the hardware walk
    /// continues in `host`'s tables, which this space's own `translate_spec`
    /// cannot follow.
    pub closed spec fn translate_shared_spec(self, host: PageTableImpl, va: u64) -> Option<u64> {
        let e = self.p4@[spec_p4_index(va) as int];
        if e.is_present() {
            host.tr3(e.spec_addr(), va)
        } else {
            None
        }
    }

    /// Whether a 4 KiB mapping of the page holding `va` can be installed:
    /// every level of the walk is either still empty or an owned non-huge
    /// table, and the leaf slot is empty.
    pub closed spec fn can_map_4k(self, va: u64) -> bool {
        let e4 = self.p4@[spec_p4_index(va) as int];
        !e4.is_present() || (!e4.is_huge() && self.p3s@.contains_key(e4.spec_addr()) && {
            let e3 = self.p3s@[e4.spec_addr()]@[spec_p3_index(va) as int];
            !e3.is_present() || (!e3.is_huge() && self.p2s@.contains_key(e3.spec_addr()) && {
                let e2 = self.p2s@[e3.spec_addr()]@[spec_p2_index(va) as int];
                !e2.is_present() || (!e2.is_huge() && self.p1s@.contains_key(e2.spec_addr()) && {
                    let e1 = self.p1s@[e2.spec_addr()]@[spec_p1_index(va) as int];
                    !e1.is_present()
                })
            })
        })
    }

    /// Whether a 2 MiB mapping of the block holding `va` can be installed.
    pub closed spec fn can_map_2m(self, va: u64) -> bool {
        let e4 = self.p4@[spec_p4_index(va) as int];
        !e4.is_present() || (!e4.is_huge() && self.p3s@.contains_key(e4.spec_addr()) && {
            let e3 = self.p3s@[e4.spec_addr()]@[spec_p3_index(va) as int];
            !e3.is_present() || (!e3.is_huge() && self.p2s@.contains_key(e3.spec_addr()) && {
                let e2 = self.p2s@[e3.spec_addr()]@[spec_p2_index(va) as int];
                !e2.is_present()
            })
        })
    }

    /// Whether a 4 KiB leaf mapping is installed for the page holding `va`:
    /// the walk reaches a present lowest-level entry through owned non-huge
    /// tables. A 2 MiB leaf over `va` does not count.
    pub closed spec fn mapped_4k(self, va: u64) -> bool {
        let e4 = self.p4@[spec_p4_index(va) as int];
        e4.is_present() && self.p3s@.contains_key(e4.spec_addr()) && {
            let e3 = self.p3s@[e4.spec_addr()]@[spec_p3_index(va) as int];
            e3.is_present() && self.p2s@.contains_key(e3.spec_addr()) && {
                let e2 = self.p2s@[e3.spec_addr()]@[spec_p2_index(va) as int];
                e2.is_present() && !e2.is_huge() && self.p1s@.contains_key(e2.spec_addr()) && {
                    let e1 = self.p1s@[e2.spec_addr()]@[spec_p1_index(va) as int];
                    e1.is_present()
                }
            }
        }
    }

    /// Whether the walk for `va` reaches a lowest-level table through owned
    /// non-huge links, whether or not its leaf slot currently maps anything.
    pub closed spec fn spec_has_leaf_path(self, va: u64) -> bool {
        let e4 = self.p4@[spec_p4_index(va) as int];
        e4.is_present() && self.p3s@.contains_key(e4.spec_addr()) && {
            let e3 = self.p3s@[e4.spec_addr()]@[spec_p3_index(va) as int];
            e3.is_present() && self.p2s@.contains_key(e3.spec_addr()) && {
                let e2 = self.p2s@[e3.spec_addr()]@[spec_p2_index(va) as int];
                e2.is_present() && !e2.is_huge() && self.p1s@.contains_key(e2.spec_addr())
            }
        }
    }

    /// The lowest-level entry the walk for `va` reads, meaningful when
    /// `spec_has_leaf_path` holds.
    pub closed spec fn spec_leaf_4k(self, va: u64) -> Entry {
        let e4 = self.p4@[spec_p4_index(va) as int];
        let e3 = self.p3s@[e4.spec_addr()]@[spec_p3_index(va) as int];
        let e2 = self.p2s@[e3.spec_addr()]@[spec_p2_index(va) as int];
        self.p1s@[e2.spec_addr()]@[spec_p1_index(va) as int]
    }

    /// The second-level entry the walk for `va` reads, meaningful when the
    /// walk reaches the second level.
    pub closed spec fn spec_leaf_2m(self, va: u64) -> Entry {
        let e4 = self.p4@[spec_p4_index(va) as int];
        let e3 = self.p3s@[e4.spec_addr()]@[spec_p3_index(va) as int];
        self.p2s@[e3.spec_addr()]@[spec_p2_index(va) as int]
    }

    /// How many intermediate tables a 4 KiB mapping of `va`'s page would
    /// still have to create: the tail of the path whose first link is absent.
    pub closed spec fn tables_needed_4k(self, va: u64) -> int {
        let e4 = self.p4@[spec_p4_index(va) as int];
        if !e4.is_present() {
            3
        } else {
            let e3 = self.p3s@[e4.spec_addr()]@[spec_p3_index(va) as int];
            if !e3.is_present() {
                2
            } else {
                let e2 = self.p2s@[e3.spec_addr()]@[spec_p2_index(va) as int];
                if !e2.is_present() {
                    1
                } else {
                    0
                }
            }
        }
    }

    /// How many intermediate tables a 2 MiB mapping of `va`'s block would
    /// still have to create.
    pub closed spec fn tables_needed_2m(self, va: u64) -> int {
        let e4 = self.p4@[spec_p4_index(va) as int];
        if !e4.is_present() {
            2
        } else {
            let e3 = self.p3s@[e4.spec_addr()]@[spec_p3_index(va) as int];
            if !e3.is_present() {
                1
            } else {
                0
            }
        }
    }

    /// A fresh address space over a zeroed top-level table in the given
    /// frame, reached through the given physical-memory base.
    pub fn new(p4_frame: Frame<Size4KiB>, physical_base: VirtualAddress) -> (r: PageTableImpl)
        requires
            p4_frame.wf(),
        ensures
            r.wf(),
            r.spec_p4_frame() == p4_frame.spec_start(),
            r.spec_physical_base() == physical_base@,
            r.spec_p4().len() == 512,
            r.is_pristine(),
            forall|i: int| 0 <= i < 512 ==> (#[trigger] r.spec_p4_entry(i))@ == 0,
            forall|va: u64| (#[trigger] r.translate_spec(va)) is None,
            forall|va: u64| #[trigger] r.can_map_4k(va) && r.can_map_2m(va),
            forall|s: Set<u64>| s.contains(p4_frame.spec_start()) ==> #[trigger] r.frames_ok(s),
    {
        let table: Table<Level4> = Table::new();
        let r = PageTableImpl {
            p4_frame,
            physical_base,
            p4: table,
            p3s: HashMap::new(),
            p2s: HashMap::new(),
            p1s: HashMap::new(),
        };
        proof {
            crate::entry::lemma_zero_entry();
            assert forall|i: int| 0 <= i < 512 implies !(#[trigger] r.p4@[i]).is_present()
                && !r.p4@[i].is_huge() && r.p4@[i].wf() by {
                assert(r.p4@[i]@ == 0);
            }
            assert(r.wf());
            assert forall|s: Set<u64>|
                s.contains(p4_frame.spec_start()) implies #[trigger] r.frames_ok(s) by {
            }
            assert forall|va: u64| (#[trigger] r.translate_spec(va)) is None by {
                lemma_indices_in_range(va);
                crate::entry::lemma_zero_entry();
                assert(!r.p4@[spec_p4_index(va) as int].is_present());
            }
            assert forall|va: u64| #[trigger] r.can_map_4k(va) && r.can_map_2m(va) by {
                lemma_indices_in_range(va);
                crate::entry::lemma_zero_entry();
                assert(!r.p4@[spec_p4_index(va) as int].is_present());
            }
        }
        r
    }

    /// A never-written address space: a zeroed top-level table and no child
    /// tables at all.
    pub closed spec fn is_pristine(self) -> bool {
        &&& self.p4@.len() == 512
        &&& forall|i: int| 0 <= i < 512 ==> (#[trigger] self.p4@[i])@ == 0
        &&& self.p3s@ == Map::<u64, Table<Level3>>::empty()
        &&& self.p2s@ == Map::<u64, Table<Level2>>::empty()
        &&& self.p1s@ == Map::<u64, Table<Level1>>::empty()
    }

    /// Point a reserved top-level slot of a fresh table back at the table's
    /// own frame. Once such a table is installed, every level of the
    /// hierarchy becomes reachable through virtual addressing alone, with no
    /// physical-memory map required.
    pub fn install_recursive_entry(&mut self, recursive_entry: usize)
        requires
            old(self).is_pristine(),
            old(self).spec_p4_frame() % 0x1000 == 0,
            recursive_entry < 512,
        ensures
            final(self).wf(),
            final(self).spec_p4_frame() == old(self).spec_p4_frame(),
            final(self).spec_physical_base() == old(self).spec_physical_base(),
            final(self).spec_p4_entry(recursive_entry as int).is_present(),
            !final(self).spec_p4_entry(recursive_entry as int).is_huge(),
            final(self).spec_p4_entry(recursive_entry as int).spec_addr() == old(
                self,
            ).spec_p4_frame(),
            final(self).spec_p4_entry(recursive_entry as int)@ == (old(self).spec_p4_frame()
                & ADDRESS_MASK) | WRITABLE | PRESENT,
            final(self).spec_p4_entry(recursive_entry as int)@ & WRITABLE == WRITABLE,
            forall|i: int|
                0 <= i < 512 && i != recursive_entry ==> (#[trigger] final(self).spec_p4_entry(
                    i,
                ))@ == 0,
            forall|va: u64| (#[trigger] final(self).translate_spec(va)) is None,
            forall|s: Set<u64>|
                s.contains(old(self).spec_p4_frame()) ==> #[trigger] final(self).frames_ok(s),
    {
        let own_frame = self.p4_frame.start();
        let mut slot = Entry::unused();
        proof {
            use_type_invariant(&own_frame);
            assert(WRITABLE & ADDRESS_MASK == 0 && 0x2u64 & 0x80u64 == 0) by (bit_vector);
            lemma_packed_entry(own_frame@, WRITABLE);
        }
        slot.set(Some((own_frame, EntryFlags::from_bits_raw(WRITABLE))));
        self.p4.set_entry(recursive_entry, slot);
        proof {
            crate::entry::lemma_zero_entry();
            let oa = own_frame@;
            assert(((oa & 0x000f_ffff_ffff_f000u64) | 0x2u64 | 0x1u64) & 0x2u64 == 0x2u64)
                by (bit_vector);
            assert forall|va: u64| (#[trigger] self.translate_spec(va)) is None by {
                lemma_indices_in_range(va);
            }
            assert(self.wf());
        }
    }

    /// Aim the reserved self-reference slot at the given table frame,
    /// whatever it held before. The recursive borrow of another space's
    /// hierarchy redirects this slot and must restore it; the lifecycle
    /// layer drives both steps and flushes the cache around them.
    pub fn point_recursive_slot(&mut self, frame_base: u64)
        requires
            old(self).spec_p4().len() == 512,
            frame_base % 0x1000 == 0,
            frame_base < MAX_PHYSICAL_ADDRESS,
        ensures
            final(self).spec_p4().len() == 512,
            final(self).spec_p4_entry(RECURSIVE_ENTRY as int)@ == (frame_base & ADDRESS_MASK)
                | WRITABLE | PRESENT,
            final(self).spec_p4_entry(RECURSIVE_ENTRY as int).is_present(),
            !final(self).spec_p4_entry(RECURSIVE_ENTRY as int).is_huge(),
            final(self).spec_p4_entry(RECURSIVE_ENTRY as int).spec_addr() == frame_base,
            forall|i: int|
                0 <= i < 512 && i != RECURSIVE_ENTRY ==> final(self).spec_p4_entry(i) == old(
                    self,
                ).spec_p4_entry(i),
            final(self).spec_p4_frame() == old(self).spec_p4_frame(),
            final(self).spec_physical_base() == old(self).spec_physical_base(),
    {
        let target = PhysicalAddress::new_unchecked(frame_base);
        let mut slot = Entry::unused();
        proof {
            assert(WRITABLE & ADDRESS_MASK == 0 && 0x2u64 & 0x80u64 == 0) by (bit_vector);
            lemma_packed_entry(frame_base, WRITABLE);
        }
        slot.set(Some((target, EntryFlags::from_bits_raw(WRITABLE))));
        self.p4.set_entry(RECURSIVE_ENTRY, slot);
    }

    /// A fresh address space that shares the kernel's mapping: a newly
    /// allocated, zeroed top-level table whose reserved kernel slot is a
    /// writable copy of the kernel's own entry there. The shared subtree
    /// stays owned by the kernel's space, so this space's own walk
    /// (`translate_spec`) still resolves nothing; addresses under the
    /// reserved slot translate through the kernel's tables, exactly as the
    /// kernel translates them — stated below over `translate_shared_spec`
    /// and available executably as `translate_shared`. Effective permissions
    /// still live at the leaves of the kernel's subtree.
    pub fn new_with_kernel_mapped<A: FrameAllocator>(
        kernel_page_table: &Self,
        allocator: &mut A,
    ) -> (r: Self)
        requires
            kernel_page_table.wf(),
            kernel_page_table.spec_p4_entry(KERNEL_P4_ENTRY as int).is_present(),
            old(allocator).inv(),
            old(allocator).remaining() >= 1,
        ensures
            final(allocator).inv(),
            final(allocator).remaining() == old(allocator).remaining() - 1,
            !old(allocator).allocated().contains(r.spec_p4_frame()),
            final(allocator).allocated() == old(allocator).allocated().insert(r.spec_p4_frame()),
            r.wf(),
            r.spec_physical_base() == PHYSICAL_MAPPING_BASE,
            r.spec_p4_entry(KERNEL_P4_ENTRY as int).is_present(),
            !r.spec_p4_entry(KERNEL_P4_ENTRY as int).is_huge(),
            r.spec_p4_entry(KERNEL_P4_ENTRY as int).spec_addr() == kernel_page_table.spec_p4_entry(
                KERNEL_P4_ENTRY as int,
            ).spec_addr(),
            r.spec_p4_entry(KERNEL_P4_ENTRY as int)@ & WRITABLE == WRITABLE,
            forall|i: int| 0 <= i < 512 && i != KERNEL_P4_ENTRY ==> r.spec_p4_entry(i)@ == 0,
            forall|va: u64| (#[trigger] r.translate_spec(va)) is None,
            forall|va: u64|
                spec_p4_index(va) == KERNEL_P4_ENTRY ==> #[trigger] r.translate_shared_spec(
                    *kernel_page_table,
                    va,
                ) == kernel_page_table.translate_spec(va),
            forall|s: Set<u64>|
                s.contains(r.spec_p4_frame()) && s.contains(
                    kernel_page_table.spec_p4_entry(KERNEL_P4_ENTRY as int).spec_addr(),
                ) ==> #[trigger] r.frames_ok(s),
    {
        let frame = allocator.allocate();
        proof {
            assert(is_canonical(PHYSICAL_MAPPING_BASE));
        }
        let mut table = PageTableImpl {
            p4_frame: frame,
            physical_base: VirtualAddress::new_unchecked(PHYSICAL_MAPPING_BASE),
            p4: Table::new(),
            p3s: HashMap::new(),
            p2s: HashMap::new(),
            p1s: HashMap::new(),
        };
        let kernel_entry = kernel_page_table.p4().get_entry(KERNEL_P4_ENTRY);
        let kernel_p3_address = match kernel_entry.address() {
            Some(a) => a,
            None => {
                proof {
                    assert(false);
                }
                PhysicalAddress::new_unchecked(0)
            },
        };
        let mut slot = Entry::unused();
        proof {
            use_type_invariant(&kernel_p3_address);
            crate::entry::lemma_address_field_in_range(kernel_entry@);
            crate::table::lemma_entry_addr_aligned(kernel_entry@);
            assert(WRITABLE & ADDRESS_MASK == 0 && 0x2u64 & 0x80u64 == 0) by (bit_vector);
            lemma_packed_entry(kernel_p3_address@, WRITABLE);
        }
        slot.set(Some((kernel_p3_address, EntryFlags::from_bits_raw(WRITABLE))));
        table.p4.set_entry(KERNEL_P4_ENTRY, slot);
        proof {
            crate::entry::lemma_zero_entry();
            let ka = kernel_p3_address@;
            assert(((ka & 0x000f_ffff_ffff_f000u64) | 0x2u64 | 0x1u64) & 0x2u64 == 0x2u64)
                by (bit_vector);
            assert forall|va: u64| (#[trigger] table.translate_spec(va)) is None by {
                lemma_indices_in_range(va);
            }
            assert forall|va: u64|
                spec_p4_index(va) == KERNEL_P4_ENTRY implies #[trigger] table.translate_shared_spec(
                *kernel_page_table,
                va,
            ) == kernel_page_table.translate_spec(va) by {
                lemma_kernel_region_shared(table, *kernel_page_table, va);
            }
            assert(table.wf());
            assert forall|s: Set<u64>|
                s.contains(table.spec_p4_frame()) && s.contains(
                    kernel_page_table.spec_p4_entry(KERNEL_P4_ENTRY as int).spec_addr(),
                ) implies #[trigger] table.frames_ok(s) by {
            }
        }
        table
    }

    /// The lowest-level entry the walk for `address` reaches through owned
    /// non-huge tables, whether or not that entry currently maps something;
    /// nothing exactly when an intermediate table is absent or the walk hits
    /// a 2 MiB leaf.
    pub fn leaf_entry(&self, address: VirtualAddress) -> (r: Option<Entry>)
        requires
            self.wf(),
        ensures
            (r is Some) == self.spec_has_leaf_path(address@),
            r is Some ==> r == Some(self.spec_leaf_4k(address@)),
            self.mapped_4k(address@) ==> self.spec_has_leaf_path(address@)
                && self.spec_leaf_4k(address@).is_present(),
    {
        proof {
            lemma_indices_in_range(address@);
        }
        let p3 = match self.p4.next_table(address.p4_index(), &self.p3s) {
            Some(t) => t,
            None => {
                return None;
            },
        };
        let p2 = match p3.next_table(address.p3_index(), &self.p2s) {
            Some(t) => t,
            None => {
                return None;
            },
        };
        let e2 = p2.get_entry(address.p2_index());
        if e2.is_present_bit() && e2.is_huge_bit() {
            return None;
        }
        let p1 = match p2.next_table(address.p2_index(), &self.p1s) {
            Some(t) => t,
            None => {
                return None;
            },
        };
        Some(p1.get_entry(address.p1_index()))
    }

    /// The physical base of the top-level table, for installation into the
    /// paging root.
    pub fn p4_frame_base(&self) -> (r: u64)
        ensures
            r == self.spec_p4_frame(),
            r < MAX_PHYSICAL_ADDRESS,
    {
        let base = self.p4_frame.start();
        proof {
            use_type_invariant(&base);
        }
        base.raw()
    }

    /// The top-level table, read-only.
    pub fn p4(&self) -> (r: &Table<Level4>)
        ensures
            r@ == self.spec_p4(),
            forall|i: int| 0 <= i < 512 ==> r@[i] == self.spec_p4_entry(i),
    {
        &self.p4
    }

    /// Install this address space's top-level frame as the core's paging
    /// root. The hardware discards all non-global cached translations on the
    /// switch, which the cache model mirrors.
    pub fn switch_to(&self, cpu: &mut Cpu, tlb: &mut Tlb)
        ensures
            final(cpu).cr3 == self.spec_p4_frame(),
            final(tlb).cached@ == Map::<u64, u64>::empty(),
    {
        cpu.cr3 = self.p4_frame_base();
        tlb.flush();
    }

    /// Install a 4 KiB mapping from `page` to `frame`, creating intermediate
    /// tables on demand, and evict the page from the translation cache.
    fn map_4k<A: FrameAllocator>(
        &mut self,
        page: Page<Size4KiB>,
        frame: Frame<Size4KiB>,
        flags: Flags,
        allocator: &mut A,
        tlb: &mut Tlb,
    ) -> (r: Result<(), PagingError>)
        requires
            old(self).wf(),
            page.wf(),
            frame.wf(),
            old(allocator).inv(),
            old(allocator).remaining() >= 3,
            old(self).frames_ok(old(allocator).allocated()),
        ensures
            final(self).wf(),
            final(allocator).inv(),
            final(self).frames_ok(final(allocator).allocated()),
            old(allocator).allocated().subset_of(final(allocator).allocated()),
            final(allocator).remaining() >= old(allocator).remaining() - 3,
            final(self).spec_p4_frame() == old(self).spec_p4_frame(),
            final(self).spec_physical_base() == old(self).spec_physical_base(),
            r is Ok <==> old(self).can_map_4k(page.spec_start()),
            r is Ok ==> {
                &&& forall|va: u64|
                    page.spec_start() <= va < page.spec_start() + SIZE_4KIB
                        ==> final(self).translate_spec(va) == Some(
                        (frame.spec_start() + (va - page.spec_start())) as u64,
                    )
                &&& forall|va: u64|
                    page.spec_start() <= va < page.spec_start() + SIZE_4KIB
                        ==> final(self).mapped_4k(va) && final(self).spec_leaf_4k(va)@ == (
                        frame.spec_start() & ADDRESS_MASK) | spec_flags_to_bits(flags) | PRESENT
                &&& forall|va: u64|
                    is_canonical(va) && !(page.spec_start() <= va < page.spec_start() + SIZE_4KIB)
                        ==> final(self).translate_spec(va) == old(self).translate_spec(va)
                &&& forall|va: u64|
                    is_canonical(va) && !(page.spec_start() <= va < page.spec_start() + SIZE_4KIB)
                        ==> final(self).can_map_4k(va) == old(self).can_map_4k(va)
                            && final(self).mapped_4k(va) == old(self).mapped_4k(va)
                &&& forall|va: u64|
                    is_canonical(va) && !(crate::addr::spec_align_down(page.spec_start(), SIZE_2MIB)
                        <= va < crate::addr::spec_align_down(page.spec_start(), SIZE_2MIB)
                        + SIZE_2MIB) ==> final(self).can_map_2m(va) == old(self).can_map_2m(va)
                &&& final(allocator).remaining() == old(allocator).remaining()
                    - old(self).tables_needed_4k(page.spec_start())
                &&& final(tlb).cached@ == old(tlb).cached@.remove(page.spec_start())
            },
            r is Err ==> {
                &&& r == Err::<(), PagingError>(PagingError::AlreadyMapped)
                &&& forall|va: u64|
                    final(self).translate_spec(va) == old(self).translate_spec(va)
                &&& forall|va: u64| final(self).can_map_4k(va) == old(self).can_map_4k(va)
                &&& forall|va: u64| final(self).can_map_2m(va) == old(self).can_map_2m(va)
                &&& forall|va: u64| final(self).mapped_4k(va) == old(self).mapped_4k(va)
                &&& *final(allocator) == *old(allocator)
                &&& final(tlb).cached@ == old(tlb).cached@
            },
    {
        let ghost pre = *self;
        let ghost alloc0 = *allocator;
        let base_addr = page.start();
        proof {
            use_type_invariant(&base_addr);
            lemma_indices_in_range(base_addr@);
        }
        let i4 = base_addr.p4_index();
        let i3 = base_addr.p3_index();
        let i2 = base_addr.p2_index();
        let i1 = base_addr.p1_index();

        let a3 = match self.p4.next_table_create(i4, &mut self.p3s, allocator) {
            Ok(a) => a,
            Err(e) => {
                proof {
                    assert(!pre.can_map_4k(page.spec_start()) && !pre.can_map_2m(
                        page.spec_start(),
                    ));
                    assert forall|va: u64|
                        final(self).translate_spec(va) == pre.translate_spec(va)
                            && final(self).can_map_4k(va) == pre.can_map_4k(va)
                            && final(self).can_map_2m(va) == pre.can_map_2m(va)
                            && final(self).mapped_4k(va) == pre.mapped_4k(va) by {
                        lemma_state_views_agree(pre, *self, va);
                    }
                }
                return Err(e);
            },
        };
        let ghost fresh3 = !pre.spec_p4_entry(i4 as int).is_present();
        let mut t3 = match self.p3s.remove(&a3) {
            Some(t) => t,
            None => {
                proof {
                    assert(false);
                }
                return Err(PagingError::AlreadyMapped);
            },
        };
        let ghost s1 = *self;
        let r2 = t3.next_table_create(i3, &mut self.p2s, allocator);
        self.p3s.insert(a3, t3);
        let a2 = match r2 {
            Ok(a) => a,
            Err(e) => {
                proof {
                    assert(!fresh3);
                    assert forall|k: u64|
                        self.p3s@.contains_key(k) == pre.p3s@.contains_key(k) by {}
                    assert forall|k: u64|
                        pre.p3s@.contains_key(k) implies (#[trigger] self.p3s@[k])@
                        == pre.p3s@[k]@ by {}
                    assert(!pre.can_map_4k(page.spec_start()) && !pre.can_map_2m(
                        page.spec_start(),
                    ));
                    assert forall|va: u64|
                        final(self).translate_spec(va) == pre.translate_spec(va)
                            && final(self).can_map_4k(va) == pre.can_map_4k(va)
                            && final(self).can_map_2m(va) == pre.can_map_2m(va)
                            && final(self).mapped_4k(va) == pre.mapped_4k(va) by {
                        lemma_state_views_agree(pre, *self, va);
                    }
                }
                return Err(e);
            },
        };
        let ghost fresh2 = !(pre.p3s@.contains_key(a3) && pre.p3s@[a3]@[i3 as int].is_present());
        let mut t2 = match self.p2s.remove(&a2) {
            Some(t) => t,
            None => {
                proof {
                    assert(false);
                }
                return Err(PagingError::AlreadyMapped);
            },
        };
        let r1 = t2.next_table_create(i2, &mut self.p1s, allocator);
        self.p2s.insert(a2, t2);
        let a1 = match r1 {
            Ok(a) => a,
            Err(e) => {
                proof {
                    assert(!fresh3 && !fresh2);
                    assert forall|k: u64|
                        self.p3s@.contains_key(k) == pre.p3s@.contains_key(k) by {}
                    assert forall|k: u64|
                        pre.p3s@.contains_key(k) implies (#[trigger] self.p3s@[k])@
                        == pre.p3s@[k]@ by {}
                    assert forall|k: u64|
                        self.p2s@.contains_key(k) == pre.p2s@.contains_key(k) by {}
                    assert forall|k: u64|
                        pre.p2s@.contains_key(k) implies (#[trigger] self.p2s@[k])@
                        == pre.p2s@[k]@ by {}
                    assert(!pre.can_map_4k(page.spec_start()));
                    assert forall|va: u64|
                        final(self).translate_spec(va) == pre.translate_spec(va)
                            && final(self).can_map_4k(va) == pre.can_map_4k(va)
                            && final(self).can_map_2m(va) == pre.can_map_2m(va)
                            && final(self).mapped_4k(va) == pre.mapped_4k(va) by {
                        lemma_state_views_agree(pre, *self, va);
                    }
                }
                return Err(e);
            },
        };
        let ghost fresh1 = !(pre.p2s@.contains_key(a2) && pre.p2s@[a2]@[i2 as int].is_present());
        let mut t1 = match self.p1s.remove(&a1) {
            Some(t) => t,
            None => {
                proof {
                    assert(false);
                }
                return Err(PagingError::AlreadyMapped);
            },
        };
        if !t1.get_entry(i1).is_unused() {
            self.p1s.insert(a1, t1);
            proof {
                assert(!fresh3 && !fresh2 && !fresh1);
                assert forall|k: u64| self.p3s@.contains_key(k) == pre.p3s@.contains_key(k) by {}
                assert forall|k: u64|
                    pre.p3s@.contains_key(k) implies (#[trigger] self.p3s@[k])@
                    == pre.p3s@[k]@ by {}
                assert forall|k: u64| self.p2s@.contains_key(k) == pre.p2s@.contains_key(k) by {}
                assert forall|k: u64|
                    pre.p2s@.contains_key(k) implies (#[trigger] self.p2s@[k])@
                    == pre.p2s@[k]@ by {}
                assert forall|k: u64| self.p1s@.contains_key(k) == pre.p1s@.contains_key(k) by {}
                assert forall|k: u64|
                    pre.p1s@.contains_key(k) implies (#[trigger] self.p1s@[k])@
                    == pre.p1s@[k]@ by {}
                assert(!pre.can_map_4k(page.spec_start()));
                assert forall|va: u64|
                    final(self).translate_spec(va) == pre.translate_spec(va)
                        && final(self).can_map_4k(va) == pre.can_map_4k(va)
                        && final(self).can_map_2m(va) == pre.can_map_2m(va)
                        && final(self).mapped_4k(va) == pre.mapped_4k(va) by {
                    lemma_state_views_agree(pre, *self, va);
                }
            }
            return Err(PagingError::AlreadyMapped);
        }
        let mut leaf = Entry::unused();
        let frame_base = frame.start();
        proof {
            use_type_invariant(&frame_base);
            crate::flags::lemma_flags_to_bits_shape(flags);
            lemma_packed_entry(frame_base@, spec_flags_to_bits(flags));
        }
        leaf.set(Some((frame_base, EntryFlags::from_flags(flags))));
        t1.set_entry(i1, leaf);
        self.p1s.insert(a1, t1);
        tlb.invalidate_page(base_addr);
        proof {
            crate::entry::lemma_zero_entry();
            crate::addr::lemma_align_down_4k(base_addr@);
            let post = *self;
            let b = page.spec_start();
            // the installed path
            assert(post.p4@[i4 as int].is_present() && !post.p4@[i4 as int].is_huge()
                && post.p4@[i4 as int].spec_addr() == a3);
            assert(post.p3s@.contains_key(a3) && post.p3s@[a3]@[i3 as int].is_present()
                && !post.p3s@[a3]@[i3 as int].is_huge() && post.p3s@[a3]@[i3 as int].spec_addr()
                == a2);
            assert(post.p2s@.contains_key(a2) && post.p2s@[a2]@[i2 as int].is_present()
                && !post.p2s@[a2]@[i2 as int].is_huge() && post.p2s@[a2]@[i2 as int].spec_addr()
                == a1);
            assert(post.p1s@.contains_key(a1) && post.p1s@[a1]@[i1 as int] == leaf);
            assert(leaf.is_present() && !leaf.is_huge() && leaf.spec_addr() == frame.spec_start());
            assert(pre.can_map_4k(b));
            // other addresses are untouched
            assert forall|va: u64|
                is_canonical(va) && !(b <= va < b + SIZE_4KIB) implies post.translate_spec(va)
                == pre.translate_spec(va) && post.can_map_4k(va) == pre.can_map_4k(va)
                && post.mapped_4k(va) == pre.mapped_4k(va) by {
                lemma_indices_in_range(va);
                if spec_p4_index(va) == spec_p4_index(b) && spec_p3_index(va) == spec_p3_index(b)
                    && spec_p2_index(va) == spec_p2_index(b) && spec_p1_index(va) == spec_p1_index(
                    b,
                ) {
                    lemma_same_indices_4k(b, va);
                    assert(false);
                } else {
                    lemma_other_paths_unchanged(
                        pre,
                        post,
                        spec_p4_index(b) as int,
                        spec_p3_index(b) as int,
                        spec_p2_index(b) as int,
                        spec_p1_index(b) as int,
                        a3,
                        a2,
                        a1,
                        va,
                    );
                }
            }
            // addresses outside the containing 2 MiB block keep their
            // huge-mapping admissibility
            let blk = crate::addr::spec_align_down(b, SIZE_2MIB);
            crate::addr::lemma_align_down_2m(b);
            lemma_canonicalise_fixes_aligned_2m(b);
            crate::addr::lemma_canonicalise_canonical(blk);
            lemma_in_block_2m(blk, b);
            assert forall|va: u64|
                is_canonical(va) && !(blk <= va < blk + SIZE_2MIB) implies post.can_map_2m(va)
                == pre.can_map_2m(va) by {
                lemma_indices_in_range(va);
                if spec_p4_index(va) == spec_p4_index(b) && spec_p3_index(va) == spec_p3_index(b)
                    && spec_p2_index(va) == spec_p2_index(b) {
                    lemma_same_indices_2m(blk, va);
                    assert(false);
                } else {
                    lemma_other_paths_unchanged(
                        pre,
                        post,
                        spec_p4_index(b) as int,
                        spec_p3_index(b) as int,
                        spec_p2_index(b) as int,
                        spec_p1_index(b) as int,
                        a3,
                        a2,
                        a1,
                        va,
                    );
                }
            }
            // the mapped page translates to the frame, through the leaf just
            // written
            assert forall|va: u64| b <= va < b + SIZE_4KIB implies post.translate_spec(va) == Some(
                (frame.spec_start() + (va - b)) as u64,
            ) && post.mapped_4k(va) && post.spec_leaf_4k(va)@ == (frame.spec_start()
                & ADDRESS_MASK) | spec_flags_to_bits(flags) | PRESENT by {
                lemma_in_page_4k(b, va);
            }
            assert(fresh3 ==> fresh2 && fresh1);
            assert(fresh2 ==> fresh1);
            assert(pre.tables_needed_4k(b) == (if fresh3 {
                3int
            } else if fresh2 {
                2int
            } else if fresh1 {
                1int
            } else {
                0int
            }));
            assert(post.wf());
            assert(post.frames_ok(allocator.allocated()));
        }
        Ok(())
    }

    /// Install a 2 MiB mapping from `page` to `frame` as a huge-page leaf in
    /// the second-level table, creating intermediate tables on demand, and
    /// evict the block's base page from the translation cache.
    fn map_2m<A: FrameAllocator>(
        &mut self,
        page: Page<Size2MiB>,
        frame: Frame<Size2MiB>,
        flags: Flags,
        allocator: &mut A,
        tlb: &mut Tlb,
    ) -> (r: Result<(), PagingError>)
        requires
            old(self).wf(),
            page.wf(),
            frame.wf(),
            old(allocator).inv(),
            old(allocator).remaining() >= 2,
            old(self).frames_ok(old(allocator).allocated()),
        ensures
            final(self).wf(),
            final(allocator).inv(),
            final(self).frames_ok(final(allocator).allocated()),
            old(allocator).allocated().subset_of(final(allocator).allocated()),
            final(allocator).remaining() >= old(allocator).remaining() - 2,
            final(self).spec_p4_frame() == old(self).spec_p4_frame(),
            final(self).spec_physical_base() == old(self).spec_physical_base(),
            r is Ok <==> old(self).can_map_2m(page.spec_start()),
            r is Ok ==> {
                &&& forall|va: u64|
                    page.spec_start() <= va < page.spec_start() + SIZE_2MIB
                        ==> final(self).translate_spec(va) == Some(
                        (frame.spec_start() + (va - page.spec_start())) as u64,
                    )
                &&& forall|va: u64|
                    page.spec_start() <= va < page.spec_start() + SIZE_2MIB
                        ==> !final(self).mapped_4k(va) && final(self).spec_leaf_2m(va)@ == (
                        frame.spec_start() & ADDRESS_MASK) | (spec_flags_to_bits(flags)
                        | HUGE_PAGE) | PRESENT
                &&& forall|va: u64|
                    is_canonical(va) && !(page.spec_start() <= va < page.spec_start() + SIZE_2MIB)
                        ==> final(self).translate_spec(va) == old(self).translate_spec(va)
                &&& forall|va: u64|
                    is_canonical(va) && !(page.spec_start() <= va < page.spec_start() + SIZE_2MIB)
                        ==> final(self).can_map_4k(va) == old(self).can_map_4k(va)
                            && final(self).can_map_2m(va) == old(self).can_map_2m(va)
                            && final(self).mapped_4k(va) == old(self).mapped_4k(va)
                &&& final(allocator).remaining() == old(allocator).remaining()
                    - old(self).tables_needed_2m(page.spec_start())
                &&& final(tlb).cached@ == old(tlb).cached@.remove(page.spec_start())
            },
            r is Err ==> {
                &&& r == Err::<(), PagingError>(PagingError::AlreadyMapped)
                &&& forall|va: u64|
                    final(self).translate_spec(va) == old(self).translate_spec(va)
                &&& forall|va: u64| final(self).can_map_4k(va) == old(self).can_map_4k(va)
                &&& forall|va: u64| final(self).can_map_2m(va) == old(self).can_map_2m(va)
                &&& forall|va: u64| final(self).mapped_4k(va) == old(self).mapped_4k(va)
                &&& *final(allocator) == *old(allocator)
                &&& final(tlb).cached@ == old(tlb).cached@
            },
    {
        let ghost pre = *self;
        let base_addr = page.start();
        proof {
            use_type_invariant(&base_addr);
            lemma_indices_in_range(base_addr@);
        }
        let i4 = base_addr.p4_index();
        let i3 = base_addr.p3_index();
        let i2 = base_addr.p2_index();

        let a3 = match self.p4.next_table_create(i4, &mut self.p3s, allocator) {
            Ok(a) => a,
            Err(e) => {
                proof {
                    assert(!pre.can_map_4k(page.spec_start()) && !pre.can_map_2m(
                        page.spec_start(),
                    ));
                    assert forall|va: u64|
                        final(self).translate_spec(va) == pre.translate_spec(va)
                            && final(self).can_map_4k(va) == pre.can_map_4k(va)
                            && final(self).can_map_2m(va) == pre.can_map_2m(va)
                            && final(self).mapped_4k(va) == pre.mapped_4k(va) by {
                        lemma_state_views_agree(pre, *self, va);
                    }
                }
                return Err(e);
            },
        };
        let ghost fresh3 = !pre.spec_p4_entry(i4 as int).is_present();
        let mut t3 = match self.p3s.remove(&a3) {
            Some(t) => t,
            None => {
                proof {
                    assert(false);
                }
                return Err(PagingError::AlreadyMapped);
            },
        };
        let r2 = t3.next_table_create(i3, &mut self.p2s, allocator);
        self.p3s.insert(a3, t3);
        let a2 = match r2 {
            Ok(a) => a,
            Err(e) => {
                proof {
                    assert(!fresh3);
                    assert forall|k: u64|
                        self.p3s@.contains_key(k) == pre.p3s@.contains_key(k) by {}
                    assert forall|k: u64|
                        pre.p3s@.contains_key(k) implies (#[trigger] self.p3s@[k])@
                        == pre.p3s@[k]@ by {}
                    assert(!pre.can_map_4k(page.spec_start()) && !pre.can_map_2m(
                        page.spec_start(),
                    ));
                    assert forall|va: u64|
                        final(self).translate_spec(va) == pre.translate_spec(va)
                            && final(self).can_map_4k(va) == pre.can_map_4k(va)
                            && final(self).can_map_2m(va) == pre.can_map_2m(va)
                            && final(self).mapped_4k(va) == pre.mapped_4k(va) by {
                        lemma_state_views_agree(pre, *self, va);
                    }
                }
                return Err(e);
            },
        };
        let ghost fresh2 = !(pre.p3s@.contains_key(a3) && pre.p3s@[a3]@[i3 as int].is_present());
        let mut t2 = match self.p2s.remove(&a2) {
            Some(t) => t,
            None => {
                proof {
                    assert(false);
                }
                return Err(PagingError::AlreadyMapped);
            },
        };
        if !t2.get_entry(i2).is_unused() {
            self.p2s.insert(a2, t2);
            proof {
                assert(!fresh3 && !fresh2);
                assert forall|k: u64| self.p3s@.contains_key(k) == pre.p3s@.contains_key(k) by {}
                assert forall|k: u64|
                    pre.p3s@.contains_key(k) implies (#[trigger] self.p3s@[k])@
                    == pre.p3s@[k]@ by {}
                assert forall|k: u64| self.p2s@.contains_key(k) == pre.p2s@.contains_key(k) by {}
                assert forall|k: u64|
                    pre.p2s@.contains_key(k) implies (#[trigger] self.p2s@[k])@
                    == pre.p2s@[k]@ by {}
                assert(!pre.can_map_2m(page.spec_start()));
                assert forall|va: u64|
                    final(self).translate_spec(va) == pre.translate_spec(va)
                        && final(self).can_map_4k(va) == pre.can_map_4k(va)
                        && final(self).can_map_2m(va) == pre.can_map_2m(va)
                        && final(self).mapped_4k(va) == pre.mapped_4k(va) by {
                    lemma_state_views_agree(pre, *self, va);
                }
            }
            return Err(PagingError::AlreadyMapped);
        }
        let mut leaf = Entry::unused();
        let frame_base = frame.start();
        let flag_bits = EntryFlags::from_flags(flags).union(EntryFlags::from_bits_raw(HUGE_PAGE));
        proof {
            use_type_invariant(&frame_base);
            crate::flags::lemma_flags_to_bits_shape(flags);
            lemma_huge_flags(spec_flags_to_bits(flags));
            lemma_packed_entry(frame_base@, spec_flags_to_bits(flags) | HUGE_PAGE);
        }
        leaf.set(Some((frame_base, flag_bits)));
        t2.set_entry(i2, leaf);
        self.p2s.insert(a2, t2);
        tlb.invalidate_page(base_addr);
        proof {
            crate::entry::lemma_zero_entry();
            let post = *self;
            let b = page.spec_start();
            assert(b % 0x20_0000 == 0 ==> b % 0x1000 == 0) by (bit_vector);
            crate::addr::lemma_align_down_4k(b);
            assert(post.p4@[i4 as int].is_present() && !post.p4@[i4 as int].is_huge()
                && post.p4@[i4 as int].spec_addr() == a3);
            assert(post.p3s@.contains_key(a3) && post.p3s@[a3]@[i3 as int].is_present()
                && !post.p3s@[a3]@[i3 as int].is_huge() && post.p3s@[a3]@[i3 as int].spec_addr()
                == a2);
            assert(post.p2s@.contains_key(a2) && post.p2s@[a2]@[i2 as int] == leaf);
            assert(leaf.is_present() && leaf.is_huge() && leaf.spec_addr() == frame.spec_start());
            assert(pre.can_map_2m(b));
            assert forall|va: u64|
                is_canonical(va) && !(b <= va < b + SIZE_2MIB) implies post.translate_spec(va)
                == pre.translate_spec(va) && post.can_map_4k(va) == pre.can_map_4k(va)
                && post.can_map_2m(va) == pre.can_map_2m(va) && post.mapped_4k(va)
                == pre.mapped_4k(va) by {
                lemma_indices_in_range(va);
                if spec_p4_index(va) == spec_p4_index(b) && spec_p3_index(va) == spec_p3_index(b)
                    && spec_p2_index(va) == spec_p2_index(b) {
                    lemma_same_indices_2m(b, va);
                    assert(false);
                } else {
                    lemma_other_paths_unchanged_2m(
                        pre,
                        post,
                        spec_p4_index(b) as int,
                        spec_p3_index(b) as int,
                        spec_p2_index(b) as int,
                        a3,
                        a2,
                        va,
                    );
                }
            }
            assert forall|va: u64| b <= va < b + SIZE_2MIB implies post.translate_spec(va) == Some(
                (frame.spec_start() + (va - b)) as u64,
            ) && !post.mapped_4k(va) && post.spec_leaf_2m(va)@ == (frame.spec_start()
                & ADDRESS_MASK) | (spec_flags_to_bits(flags) | HUGE_PAGE) | PRESENT by {
                lemma_in_block_2m(b, va);
            }
            assert(fresh3 ==> fresh2);
            assert(pre.tables_needed_2m(b) == (if fresh3 {
                2int
            } else if fresh2 {
                1int
            } else {
                0int
            }));
            assert(post.wf());
            assert(post.frames_ok(allocator.allocated()));
        }
        Ok(())
    }

    /// Install a mapping from `page` to `frame` with the given permissions,
    /// creating intermediate tables on demand and evicting the affected page
    /// from the translation cache. A mapping is never silently overwritten:
    /// an occupied leaf slot, or a walk through a region already claimed,
    /// fails with `AlreadyMapped` and changes nothing. 1 GiB pages have no
    /// implemented mapping path and fail with `UnsupportedPageSize`.
    pub fn map<S: FrameSize, A: FrameAllocator>(
        &mut self,
        page: Page<S>,
        frame: Frame<S>,
        flags: Flags,
        allocator: &mut A,
        tlb: &mut Tlb,
    ) -> (r: Result<(), PagingError>)
        requires
            old(self).wf(),
            page.wf(),
            frame.wf(),
            old(allocator).inv(),
            S::spec_size() == SIZE_4KIB ==> old(allocator).remaining() >= 3,
            S::spec_size() == SIZE_2MIB ==> old(allocator).remaining() >= 2,
            old(self).frames_ok(old(allocator).allocated()),
        ensures
            final(self).wf(),
            final(allocator).inv(),
            final(self).frames_ok(final(allocator).allocated()),
            old(allocator).allocated().subset_of(final(allocator).allocated()),
            final(allocator).remaining() >= old(allocator).remaining() - 3,
            final(self).spec_p4_frame() == old(self).spec_p4_frame(),
            final(self).spec_physical_base() == old(self).spec_physical_base(),
            S::spec_size() == SIZE_4KIB ==> (r is Ok <==> old(self).can_map_4k(
                page.spec_start(),
            )),
            S::spec_size() == SIZE_2MIB ==> (r is Ok <==> old(self).can_map_2m(
                page.spec_start(),
            )),
            S::spec_size() == SIZE_1GIB ==> r == Err::<(), PagingError>(
                PagingError::UnsupportedPageSize,
            ),
            (S::spec_size() == SIZE_4KIB || S::spec_size() == SIZE_2MIB) && r is Err ==> r
                == Err::<(), PagingError>(PagingError::AlreadyMapped),
            r is Ok && S::spec_size() == SIZE_4KIB ==> {
                &&& forall|va: u64|
                    page.spec_start() <= va < page.spec_start() + SIZE_4KIB
                        ==> final(self).mapped_4k(va) && final(self).spec_leaf_4k(va)@ == (
                        frame.spec_start() & ADDRESS_MASK) | spec_flags_to_bits(flags) | PRESENT
                &&& final(allocator).remaining() == old(allocator).remaining()
                    - old(self).tables_needed_4k(page.spec_start())
            },
            r is Ok && S::spec_size() == SIZE_2MIB ==> {
                &&& forall|va: u64|
                    page.spec_start() <= va < page.spec_start() + SIZE_2MIB
                        ==> !final(self).mapped_4k(va) && final(self).spec_leaf_2m(va)@ == (
                        frame.spec_start() & ADDRESS_MASK) | (spec_flags_to_bits(flags)
                        | HUGE_PAGE) | PRESENT
                &&& final(allocator).remaining() == old(allocator).remaining()
                    - old(self).tables_needed_2m(page.spec_start())
            },
            r is Ok ==> {
                &&& forall|va: u64|
                    page.spec_start() <= va < page.spec_start() + S::spec_size()
                        ==> final(self).translate_spec(va) == Some(
                        (frame.spec_start() + (va - page.spec_start())) as u64,
                    )
                &&& forall|va: u64|
                    is_canonical(va) && !(page.spec_start() <= va < page.spec_start()
                        + S::spec_size()) ==> final(self).translate_spec(va) == old(
                        self,
                    ).translate_spec(va)
                &&& forall|va: u64|
                    is_canonical(va) && !(page.spec_start() <= va < page.spec_start()
                        + S::spec_size()) ==> final(self).can_map_4k(va) == old(self).can_map_4k(
                        va,
                    ) && final(self).mapped_4k(va) == old(self).mapped_4k(va)
                &&& forall|va: u64|
                    is_canonical(va) && !(crate::addr::spec_align_down(page.spec_start(), SIZE_2MIB)
                        <= va < crate::addr::spec_align_down(page.spec_start(), SIZE_2MIB)
                        + SIZE_2MIB) ==> final(self).can_map_2m(va) == old(self).can_map_2m(va)
                &&& final(tlb).cached@ == old(tlb).cached@.remove(page.spec_start())
            },
            r is Err ==> {
                &&& forall|va: u64|
                    final(self).translate_spec(va) == old(self).translate_spec(va)
                &&& forall|va: u64| final(self).can_map_4k(va) == old(self).can_map_4k(va)
                &&& forall|va: u64| final(self).can_map_2m(va) == old(self).can_map_2m(va)
                &&& forall|va: u64| final(self).mapped_4k(va) == old(self).mapped_4k(va)
                &&& *final(allocator) == *old(allocator)
                &&& final(tlb).cached@ == old(tlb).cached@
            },
    {
        proof {
            S::size_properties();
        }
        let size = S::size();
        if size == SIZE_4KIB {
            let small_page = Page::<Size4KiB>::starts_with(page.start());
            let small_frame = Frame::<Size4KiB>::starts_with(frame.start());
            self.map_4k(small_page, small_frame, flags, allocator, tlb)
        } else if size == SIZE_2MIB {
            let large_page = Page::<Size2MiB>::starts_with(page.start());
            let large_frame = Frame::<Size2MiB>::starts_with(frame.start());
            let r = self.map_2m(large_page, large_frame, flags, allocator, tlb);
            proof {
                crate::addr::lemma_align_down_2m(page.spec_start());
            }
            r
        } else {
            Err(PagingError::UnsupportedPageSize)
        }
    }

    /// Remove the 4 KiB mapping of `page`, handing the previously mapped
    /// frame back to the caller, who decides whether to free it. A missing
    /// intermediate table — or a page only covered by a 2 MiB leaf — yields
    /// nothing; absence is a normal outcome, never a fault. Intermediate
    /// tables are never reclaimed. 2 MiB and 1 GiB unmapping has no
    /// implemented path, which the page-size bound on the precondition
    /// reflects.
    pub fn unmap<S: FrameSize>(&mut self, page: Page<S>, tlb: &mut Tlb) -> (r: Option<Frame<S>>)
        requires
            old(self).wf(),
            page.wf(),
            S::spec_size() == SIZE_4KIB,
        ensures
            final(self).wf(),
            final(self).spec_p4_frame() == old(self).spec_p4_frame(),
            final(self).spec_physical_base() == old(self).spec_physical_base(),
            forall|s: Set<u64>| #[trigger] old(self).frames_ok(s) ==> final(self).frames_ok(s),
            (r is Some) == old(self).mapped_4k(page.spec_start()),
            match r {
                Some(f) => {
                    &&& f.wf()
                    &&& old(self).translate_spec(page.spec_start()) == Some(f.spec_start())
                    &&& final(self).can_map_4k(page.spec_start())
                    &&& forall|va: u64|
                        page.spec_start() <= va < page.spec_start() + SIZE_4KIB
                            ==> final(self).translate_spec(va) is None
                    &&& forall|va: u64|
                        is_canonical(va) && !(page.spec_start() <= va < page.spec_start()
                            + SIZE_4KIB) ==> final(self).translate_spec(va) == old(
                            self,
                        ).translate_spec(va)
                    &&& final(tlb).cached@ == old(tlb).cached@.remove(page.spec_start())
                },
                None => {
                    &&& forall|va: u64|
                        final(self).translate_spec(va) == old(self).translate_spec(va)
                    &&& forall|va: u64| final(self).can_map_4k(va) == old(self).can_map_4k(va)
                    &&& forall|va: u64| final(self).can_map_2m(va) == old(self).can_map_2m(va)
                    &&& final(tlb).cached@ == old(tlb).cached@
                },
            },
    {
        let ghost pre = *self;
        let base_addr = page.start();
        proof {
            use_type_invariant(&base_addr);
            lemma_indices_in_range(base_addr@);
        }
        let i4 = base_addr.p4_index();
        let i3 = base_addr.p3_index();
        let i2 = base_addr.p2_index();
        let i1 = base_addr.p1_index();

        let p3 = match self.p4.next_table(i4, &self.p3s) {
            Some(t) => t,
            None => {
                return None;
            },
        };
        let p2 = match p3.next_table(i3, &self.p2s) {
            Some(t) => t,
            None => {
                return None;
            },
        };
        let e2 = p2.get_entry(i2);
        if !e2.is_present_bit() || e2.is_huge_bit() {
            return None;
        }
        let a1 = e2.address_bits();
        let ghost a3 = self.p4@[i4 as int].spec_addr();
        let ghost a2 = self.p3s@[a3]@[i3 as int].spec_addr();
        if !self.p1s.contains_key(&a1) {
            return None;
        }
        let mut t1 = match self.p1s.remove(&a1) {
            Some(t) => t,
            None => {
                proof {
                    assert(false);
                }
                return None;
            },
        };
        let leaf = t1.get_entry(i1);
        match leaf.address() {
            None => {
                self.p1s.insert(a1, t1);
                proof {
                    assert forall|k: u64|
                        self.p1s@.contains_key(k) == pre.p1s@.contains_key(k) by {}
                    assert forall|k: u64|
                        pre.p1s@.contains_key(k) implies (#[trigger] self.p1s@[k])@
                        == pre.p1s@[k]@ by {}
                    assert forall|va: u64|
                        final(self).translate_spec(va) == pre.translate_spec(va)
                            && final(self).can_map_4k(va) == pre.can_map_4k(va)
                            && final(self).can_map_2m(va) == pre.can_map_2m(va)
                            && final(self).mapped_4k(va) == pre.mapped_4k(va) by {
                        lemma_state_views_agree(pre, *self, va);
                    }
                }
                None
            },
            Some(frame_base) => {
                t1.set_entry(i1, Entry::unused());
                self.p1s.insert(a1, t1);
                tlb.invalidate_page(base_addr);
                proof {
                    crate::entry::lemma_zero_entry();
                    crate::addr::lemma_align_down_4k(base_addr@);
                    crate::entry::lemma_address_field_in_range(leaf@);
                    let post = *self;
                    let b = page.spec_start();
                    assert(pre.mapped_4k(b));
                    assert forall|va: u64|
                        is_canonical(va) && !(b <= va < b + SIZE_4KIB) implies post.translate_spec(
                        va,
                    ) == pre.translate_spec(va) by {
                        lemma_indices_in_range(va);
                        if spec_p4_index(va) == spec_p4_index(b) && spec_p3_index(va)
                            == spec_p3_index(b) && spec_p2_index(va) == spec_p2_index(b)
                            && spec_p1_index(va) == spec_p1_index(b) {
                            lemma_same_indices_4k(b, va);
                            assert(false);
                        } else {
                            lemma_other_paths_unchanged(
                                pre,
                                post,
                                spec_p4_index(b) as int,
                                spec_p3_index(b) as int,
                                spec_p2_index(b) as int,
                                spec_p1_index(b) as int,
                                a3,
                                a2,
                                a1,
                                va,
                            );
                        }
                    }
                    assert forall|va: u64|
                        b <= va < b + SIZE_4KIB implies post.translate_spec(va) is None by {
                        lemma_in_page_4k(b, va);
                    }
                    assert(post.can_map_4k(b));
                    assert(post.wf());
                    assert forall|s: Set<u64>| #[trigger] pre.frames_ok(s) implies post.frames_ok(
                        s,
                    ) by {}
                }
                proof {
                    crate::table::lemma_entry_addr_aligned(leaf@);
                }
                Some(Frame::starts_with(PhysicalAddress::new_unchecked(frame_base.raw())))
            },
        }
    }

    /// Map `count` consecutive 4 KiB pages starting at `virtual_start` to
    /// the frames starting at `physical_start`, by repeated single-page
    /// mapping. A failure aborts the walk; pages already installed stay.
    fn map_range_4k<A: FrameAllocator>(
        &mut self,
        virtual_start: VirtualAddress,
        physical_start: PhysicalAddress,
        count: u64,
        flags: Flags,
        allocator: &mut A,
        tlb: &mut Tlb,
    ) -> (r: Result<(), PagingError>)
        requires
            old(self).wf(),
            virtual_start@ % SIZE_4KIB == 0,
            physical_start@ % SIZE_4KIB == 0,
            virtual_start@ + count * SIZE_4KIB <= u64::MAX,
            physical_start@ + count * SIZE_4KIB <= MAX_PHYSICAL_ADDRESS,
            forall|va: u64|
                virtual_start@ <= va < virtual_start@ + count * SIZE_4KIB ==> is_canonical(va),
            old(allocator).inv(),
            old(allocator).remaining() >= 3 * count,
            old(self).frames_ok(old(allocator).allocated()),
        ensures
            final(self).wf(),
            final(allocator).inv(),
            final(self).frames_ok(final(allocator).allocated()),
            old(allocator).allocated().subset_of(final(allocator).allocated()),
            final(allocator).remaining() >= old(allocator).remaining() - 3 * count,
            final(self).spec_p4_frame() == old(self).spec_p4_frame(),
            final(self).spec_physical_base() == old(self).spec_physical_base(),
            final(tlb).cached@.submap_of(old(tlb).cached@),
            count == 0 ==> *final(self) == *old(self) && *final(allocator) == *old(allocator)
                && *final(tlb) == *old(tlb),
            r is Ok ==> forall|va: u64|
                virtual_start@ <= va < virtual_start@ + count * SIZE_4KIB ==> final(self).translate_spec(va) == Some((physical_start@ + (va - virtual_start@)) as u64),
            (forall|va: u64|
                virtual_start@ <= va < virtual_start@ + count * SIZE_4KIB ==> old(self).can_map_4k(
                    va,
                )) ==> r is Ok,
            r is Ok ==> forall|va: u64|
                virtual_start@ <= va < virtual_start@ + count * SIZE_4KIB ==> final(self).mapped_4k(va),
            r is Err ==> r == Err::<(), PagingError>(PagingError::AlreadyMapped),
            r is Err ==> exists|j: u64|
                j < count && #[trigger] spec_partial_map_4k(
                    *old(self),
                    *final(self),
                    virtual_start@,
                    physical_start@,
                    j,
                ),
            forall|va: u64|
                is_canonical(va) && !(virtual_start@ <= va < virtual_start@ + count * SIZE_4KIB)
                    ==> final(self).translate_spec(va) == old(self).translate_spec(va),
            forall|va: u64|
                is_canonical(va) && !(virtual_start@ <= va < virtual_start@ + count * SIZE_4KIB)
                    ==> final(self).can_map_4k(va) == old(self).can_map_4k(va) && final(self).mapped_4k(va) == old(self).mapped_4k(va),
            forall|va: u64|
                is_canonical(va) && !(crate::addr::spec_align_down(virtual_start@, SIZE_2MIB) <= va
                    < crate::addr::spec_align_down(
                    (virtual_start@ + count * SIZE_4KIB - 1) as u64,
                    SIZE_2MIB,
                ) + SIZE_2MIB) ==> final(self).can_map_2m(va) == old(self).can_map_2m(va),
    {
        if count == 0 {
            return Ok(());
        }
        let ghost pre = *self;
        let ghost alloc0 = *allocator;
        let ghost tlb0 = *tlb;
        let vs = virtual_start.raw();
        let ps = physical_start.raw();
        let mut i: u64 = 0;
        while i < count
            invariant
                pre == *old(self),
                alloc0 == *old(allocator),
                tlb0 == *old(tlb),
                self.wf(),
                allocator.inv(),
                self.frames_ok(allocator.allocated()),
                alloc0.allocated().subset_of(allocator.allocated()),
                allocator.remaining() >= alloc0.remaining() - 3 * i,
                i <= count,
                self.spec_p4_frame() == pre.spec_p4_frame(),
                self.spec_physical_base() == pre.spec_physical_base(),
                tlb.cached@.submap_of(tlb0.cached@),
                vs == virtual_start@,
                ps == physical_start@,
                vs % SIZE_4KIB == 0,
                ps % SIZE_4KIB == 0,
                vs + count * SIZE_4KIB <= u64::MAX,
                ps + count * SIZE_4KIB <= MAX_PHYSICAL_ADDRESS,
                forall|va: u64| vs <= va < vs + count * SIZE_4KIB ==> is_canonical(va),
                alloc0.remaining() >= 3 * count,
                forall|va: u64|
                    vs <= va < vs + i * SIZE_4KIB ==> self.translate_spec(va) == Some(
                        (ps + (va - vs)) as u64,
                    ),
                forall|va: u64| vs <= va < vs + i * SIZE_4KIB ==> self.mapped_4k(va),
                forall|va: u64|
                    is_canonical(va) && !(vs <= va < vs + i * SIZE_4KIB) ==> self.translate_spec(
                        va,
                    ) == pre.translate_spec(va),
                i == 0 ==> *self == pre,
                forall|va: u64|
                    is_canonical(va) && !(vs <= va < vs + i * SIZE_4KIB) ==> self.can_map_4k(va)
                        == pre.can_map_4k(va) && self.mapped_4k(va) == pre.mapped_4k(va),
                i > 0 ==> forall|va: u64|
                    is_canonical(va) && !(crate::addr::spec_align_down(vs, SIZE_2MIB) <= va
                        < crate::addr::spec_align_down(
                        (vs + i * SIZE_4KIB - 1) as u64,
                        SIZE_2MIB,
                    ) + SIZE_2MIB) ==> self.can_map_2m(va) == pre.can_map_2m(va),
            decreases count - i,
        {
            proof {
                assert((vs + i * SIZE_4KIB) % (SIZE_4KIB as int) == 0 && (ps + i * SIZE_4KIB) % (
                SIZE_4KIB as int) == 0) by (nonlinear_arith)
                    requires
                        vs % SIZE_4KIB == 0,
                        ps % SIZE_4KIB == 0,
                        i >= 0,
                ;
                assert(i * SIZE_4KIB < count * SIZE_4KIB && (i + 1) * SIZE_4KIB == i * SIZE_4KIB
                    + SIZE_4KIB && 3 * i + 3 <= 3 * count) by (nonlinear_arith)
                    requires
                        0 <= i < count,
                ;
            }
            let page_base = VirtualAddress::new_unchecked(vs + i * SIZE_4KIB);
            let frame_base = PhysicalAddress::new_unchecked(ps + i * SIZE_4KIB);
            let page = Page::<Size4KiB>::starts_with(page_base);
            let frame = Frame::<Size4KiB>::starts_with(frame_base);
            let ghost base_val = (vs + i * SIZE_4KIB) as u64;
            match self.map_4k(page, frame, flags, allocator, tlb) {
                Ok(()) => {},
                Err(e) => {
                    proof {
                        assert(is_canonical(base_val));
                        assert(!(vs <= base_val < vs + i * SIZE_4KIB));
                        assert(!pre.can_map_4k(base_val));
                        assert(spec_partial_map_4k(pre, *self, vs, ps, i));
                        if i > 0 {
                            lemma_align_down_2m_monotone(
                                (vs + i * SIZE_4KIB - 1) as u64,
                                (vs + count * SIZE_4KIB - 1) as u64,
                            );
                        }
                    }
                    return Err(e);
                },
            }
            proof {
                let newbase = vs + i * SIZE_4KIB;
                assert forall|va: u64|
                    vs <= va < vs + (i + 1) * SIZE_4KIB implies self.translate_spec(va) == Some(
                    (ps + (va - vs)) as u64,
                ) && self.mapped_4k(va) by {
                    if va < newbase {
                        assert(is_canonical(va));
                    }
                }
                let zlo = crate::addr::spec_align_down(vs, SIZE_2MIB);
                let zhi = crate::addr::spec_align_down(
                    (vs + (i + 1) * SIZE_4KIB - 1) as u64,
                    SIZE_2MIB,
                ) + SIZE_2MIB;
                let blk = crate::addr::spec_align_down(base_val, SIZE_2MIB);
                lemma_align_down_2m_monotone(vs, base_val);
                lemma_align_down_2m_monotone(base_val, (vs + (i + 1) * SIZE_4KIB - 1) as u64);
                crate::addr::lemma_align_down_2m(base_val);
                crate::addr::lemma_align_down_2m((vs + (i + 1) * SIZE_4KIB - 1) as u64);
                if i > 0 {
                    lemma_align_down_2m_monotone(
                        (vs + i * SIZE_4KIB - 1) as u64,
                        (vs + (i + 1) * SIZE_4KIB - 1) as u64,
                    );
                }
                assert forall|va: u64|
                    is_canonical(va) && !(zlo <= va < zhi) implies self.can_map_2m(va)
                    == pre.can_map_2m(va) by {
                    assert(!(blk <= va < blk + SIZE_2MIB));
                    if i > 0 {
                        assert(!(zlo <= va < crate::addr::spec_align_down(
                            (vs + i * SIZE_4KIB - 1) as u64,
                            SIZE_2MIB,
                        ) + SIZE_2MIB));
                    }
                }
            }
            i = i + 1;
        }
        Ok(())
    }

    /// Map `count` consecutive 2 MiB blocks starting at `virtual_start` to
    /// the frames starting at `physical_start`, by repeated single-block
    /// mapping. A failure aborts the walk; blocks already installed stay.
    fn map_range_2m<A: FrameAllocator>(
        &mut self,
        virtual_start: VirtualAddress,
        physical_start: PhysicalAddress,
        count: u64,
        flags: Flags,
        allocator: &mut A,
        tlb: &mut Tlb,
    ) -> (r: Result<(), PagingError>)
        requires
            old(self).wf(),
            virtual_start@ % SIZE_2MIB == 0,
            physical_start@ % SIZE_2MIB == 0,
            virtual_start@ + count * SIZE_2MIB <= u64::MAX,
            physical_start@ + count * SIZE_2MIB <= MAX_PHYSICAL_ADDRESS,
            forall|va: u64|
                virtual_start@ <= va < virtual_start@ + count * SIZE_2MIB ==> is_canonical(va),
            old(allocator).inv(),
            old(allocator).remaining() >= 2 * count,
            old(self).frames_ok(old(allocator).allocated()),
        ensures
            final(self).wf(),
            final(allocator).inv(),
            final(self).frames_ok(final(allocator).allocated()),
            old(allocator).allocated().subset_of(final(allocator).allocated()),
            final(allocator).remaining() >= old(allocator).remaining() - 2 * count,
            final(self).spec_p4_frame() == old(self).spec_p4_frame(),
            final(self).spec_physical_base() == old(self).spec_physical_base(),
            final(tlb).cached@.submap_of(old(tlb).cached@),
            count == 0 ==> *final(self) == *old(self) && *final(allocator) == *old(allocator)
                && *final(tlb) == *old(tlb),
            r is Ok ==> forall|va: u64|
                virtual_start@ <= va < virtual_start@ + count * SIZE_2MIB ==> final(self).translate_spec(va) == Some((physical_start@ + (va - virtual_start@)) as u64),
            (forall|va: u64|
                virtual_start@ <= va < virtual_start@ + count * SIZE_2MIB ==> old(self).can_map_2m(
                    va,
                )) ==> r is Ok,
            r is Ok ==> forall|va: u64|
                virtual_start@ <= va < virtual_start@ + count * SIZE_2MIB ==> !final(self).mapped_4k(va),
            r is Err ==> r == Err::<(), PagingError>(PagingError::AlreadyMapped),
            r is Err ==> exists|j: u64|
                j < count && #[trigger] spec_partial_map_2m(
                    *old(self),
                    *final(self),
                    virtual_start@,
                    physical_start@,
                    j,
                ),
            forall|va: u64|
                is_canonical(va) && !(virtual_start@ <= va < virtual_start@ + count * SIZE_2MIB)
                    ==> final(self).translate_spec(va) == old(self).translate_spec(va),
            forall|va: u64|
                is_canonical(va) && !(virtual_start@ <= va < virtual_start@ + count * SIZE_2MIB)
                    ==> final(self).can_map_4k(va) == old(self).can_map_4k(va)
                        && final(self).can_map_2m(va) == old(self).can_map_2m(va)
                        && final(self).mapped_4k(va) == old(self).mapped_4k(va),
    {
        if count == 0 {
            return Ok(());
        }
        let ghost pre = *self;
        let ghost alloc0 = *allocator;
        let ghost tlb0 = *tlb;
        let vs = virtual_start.raw();
        let ps = physical_start.raw();
        let mut i: u64 = 0;
        while i < count
            invariant
                pre == *old(self),
                alloc0 == *old(allocator),
                tlb0 == *old(tlb),
                self.wf(),
                allocator.inv(),
                self.frames_ok(allocator.allocated()),
                alloc0.allocated().subset_of(allocator.allocated()),
                allocator.remaining() >= alloc0.remaining() - 2 * i,
                i <= count,
                self.spec_p4_frame() == pre.spec_p4_frame(),
                self.spec_physical_base() == pre.spec_physical_base(),
                tlb.cached@.submap_of(tlb0.cached@),
                vs == virtual_start@,
                ps == physical_start@,
                vs % SIZE_2MIB == 0,
                ps % SIZE_2MIB == 0,
                vs + count * SIZE_2MIB <= u64::MAX,
                ps + count * SIZE_2MIB <= MAX_PHYSICAL_ADDRESS,
                forall|va: u64| vs <= va < vs + count * SIZE_2MIB ==> is_canonical(va),
                alloc0.remaining() >= 2 * count,
                forall|va: u64|
                    vs <= va < vs + i * SIZE_2MIB ==> self.translate_spec(va) == Some(
                        (ps + (va - vs)) as u64,
                    ),
                forall|va: u64| vs <= va < vs + i * SIZE_2MIB ==> !self.mapped_4k(va),
                forall|va: u64|
                    is_canonical(va) && !(vs <= va < vs + i * SIZE_2MIB) ==> self.translate_spec(
                        va,
                    ) == pre.translate_spec(va),
                i == 0 ==> *self == pre,
                forall|va: u64|
                    is_canonical(va) && !(vs <= va < vs + i * SIZE_2MIB) ==> self.can_map_4k(va)
                        == pre.can_map_4k(va) && self.can_map_2m(va) == pre.can_map_2m(va)
                        && self.mapped_4k(va) == pre.mapped_4k(va),
            decreases count - i,
        {
            proof {
                assert((vs + i * SIZE_2MIB) % (SIZE_2MIB as int) == 0 && (ps + i * SIZE_2MIB) % (
                SIZE_2MIB as int) == 0) by (nonlinear_arith)
                    requires
                        vs % SIZE_2MIB == 0,
                        ps % SIZE_2MIB == 0,
                        i >= 0,
                ;
                assert(i * SIZE_2MIB < count * SIZE_2MIB && (i + 1) * SIZE_2MIB == i * SIZE_2MIB
                    + SIZE_2MIB && 2 * i + 2 <= 2 * count) by (nonlinear_arith)
                    requires
                        0 <= i < count,
                ;
            }
            let page_base = VirtualAddress::new_unchecked(vs + i * SIZE_2MIB);
            let frame_base = PhysicalAddress::new_unchecked(ps + i * SIZE_2MIB);
            let page = Page::<Size2MiB>::starts_with(page_base);
            let frame = Frame::<Size2MiB>::starts_with(frame_base);
            let ghost base_val = (vs + i * SIZE_2MIB) as u64;
            match self.map_2m(page, frame, flags, allocator, tlb) {
                Ok(()) => {},
                Err(e) => {
                    proof {
                        assert(is_canonical(base_val));
                        assert(!(vs <= base_val < vs + i * SIZE_2MIB));
                        assert(!pre.can_map_2m(base_val));
                        assert(spec_partial_map_2m(pre, *self, vs, ps, i));
                    }
                    return Err(e);
                },
            }
            proof {
                let newbase = vs + i * SIZE_2MIB;
                assert forall|va: u64|
                    vs <= va < vs + (i + 1) * SIZE_2MIB implies self.translate_spec(va) == Some(
                    (ps + (va - vs)) as u64,
                ) && !self.mapped_4k(va) by {
                    if va < newbase {
                        assert(is_canonical(va));
                    }
                }
            }
            i = i + 1;
        }
        Ok(())
    }

    /// The first 2 MiB boundary at or above `vs`: where a region starting at
    /// `vs` begins to be coverable by whole blocks.
    pub open spec fn spec_middle_start(vs: u64) -> u64 {
        crate::addr::spec_align_down((vs + SIZE_2MIB - 1) as u64, SIZE_2MIB)
    }

    /// The last 2 MiB boundary at or below the region's end.
    pub open spec fn spec_middle_end(vs: u64, size: u64) -> u64 {
        crate::addr::spec_align_down((vs + size) as u64, SIZE_2MIB)
    }

    /// Map a contiguous region with as few mapping operations as alignment
    /// allows. A region smaller than 2 MiB is mapped entirely with 4 KiB
    /// pages; a larger one splits into a 4 KiB prefix up to the first 2 MiB
    /// boundary, a middle of whole 2 MiB blocks, and a 4 KiB suffix. The
    /// physical-to-virtual distance is constant across the region. A failure
    /// in any sub-range aborts the call with that failure; mappings already
    /// installed are kept, never rolled back.
    pub fn map_area<A: FrameAllocator>(
        &mut self,
        virtual_start: VirtualAddress,
        physical_start: PhysicalAddress,
        size: u64,
        flags: Flags,
        allocator: &mut A,
        tlb: &mut Tlb,
    ) -> (r: Result<(), PagingError>)
        requires
            old(self).wf(),
            virtual_start@ % SIZE_4KIB == 0,
            physical_start@ % SIZE_4KIB == 0,
            size % SIZE_4KIB == 0,
            virtual_start@ + size <= u64::MAX,
            physical_start@ + size <= MAX_PHYSICAL_ADDRESS,
            forall|va: u64| virtual_start@ <= va < virtual_start@ + size ==> is_canonical(va),
            size >= SIZE_2MIB ==> physical_start@ % SIZE_2MIB == virtual_start@ % SIZE_2MIB,
            old(allocator).inv(),
            old(allocator).remaining() >= 3 * (size / SIZE_4KIB),
            old(self).frames_ok(old(allocator).allocated()),
        ensures
            final(self).wf(),
            final(allocator).inv(),
            final(self).frames_ok(final(allocator).allocated()),
            old(allocator).allocated().subset_of(final(allocator).allocated()),
            final(allocator).remaining() >= old(allocator).remaining() - 3 * (size / SIZE_4KIB),
            final(self).spec_p4_frame() == old(self).spec_p4_frame(),
            final(self).spec_physical_base() == old(self).spec_physical_base(),
            final(tlb).cached@.submap_of(old(tlb).cached@),
            r is Ok ==> forall|va: u64|
                virtual_start@ <= va < virtual_start@ + size ==> final(self).translate_spec(va)
                    == Some((physical_start@ + (va - virtual_start@)) as u64),
            size < SIZE_2MIB ==> ((forall|va: u64|
                virtual_start@ <= va < virtual_start@ + size ==> old(self).can_map_4k(va))
                ==> r is Ok),
            size >= SIZE_2MIB ==> (((forall|va: u64|
                virtual_start@ <= va < PageTableImpl::spec_middle_start(virtual_start@) ==> old(
                    self,
                ).can_map_4k(va)) && (forall|va: u64|
                PageTableImpl::spec_middle_start(virtual_start@) <= va
                    < PageTableImpl::spec_middle_end(virtual_start@, size) ==> old(
                    self,
                ).can_map_2m(va)) && (forall|va: u64|
                PageTableImpl::spec_middle_end(virtual_start@, size) <= va < virtual_start@ + size
                    ==> old(self).can_map_4k(va))) ==> r is Ok),
            r is Ok && size < SIZE_2MIB ==> forall|va: u64|
                virtual_start@ <= va < virtual_start@ + size ==> final(self).mapped_4k(va),
            r is Ok && size >= SIZE_2MIB ==> {
                &&& forall|va: u64|
                    virtual_start@ <= va < PageTableImpl::spec_middle_start(virtual_start@)
                        ==> final(self).mapped_4k(va)
                &&& forall|va: u64|
                    PageTableImpl::spec_middle_start(virtual_start@) <= va
                        < PageTableImpl::spec_middle_end(virtual_start@, size) ==> !final(self).mapped_4k(va)
                &&& forall|va: u64|
                    PageTableImpl::spec_middle_end(virtual_start@, size) <= va < virtual_start@
                        + size ==> final(self).mapped_4k(va)
            },
            r is Err ==> r == Err::<(), PagingError>(PagingError::AlreadyMapped),
            r is Err ==> exists|p: u64|
                virtual_start@ <= p < virtual_start@ + size && !(old(self).can_map_4k(p) && old(
                    self,
                ).can_map_2m(p)) && #[trigger] spec_partial_map_area(
                    *old(self),
                    *final(self),
                    virtual_start@,
                    physical_start@,
                    p,
                ),
            forall|va: u64|
                is_canonical(va) && !(virtual_start@ <= va < virtual_start@ + size) ==> final(self).translate_spec(va) == old(self).translate_spec(va),
    {
        let vs = virtual_start.raw();
        let ps = physical_start.raw();
        proof {
            use_type_invariant(&virtual_start);
        }
        if size < SIZE_2MIB {
            let count = size / SIZE_4KIB;
            proof {
                assert(count * SIZE_4KIB == size) by (nonlinear_arith)
                    requires
                        size % SIZE_4KIB == 0,
                        count == size / SIZE_4KIB,
                ;
            }
            match self.map_range_4k(virtual_start, physical_start, count, flags, allocator, tlb) {
                Ok(()) => Ok(()),
                Err(e) => {
                    proof {
                        let j = choose|j: u64|
                            j < count && spec_partial_map_4k(*old(self), *self, vs, ps, j);
                        let p = (vs + j * SIZE_4KIB) as u64;
                        assert(j * SIZE_4KIB < count * SIZE_4KIB) by (nonlinear_arith)
                            requires
                                j < count,
                        ;
                        assert(spec_partial_map_area(*old(self), *self, vs, ps, p));
                        assert(vs <= p < vs + size && !(old(self).can_map_4k(p) && old(
                            self,
                        ).can_map_2m(p)));
                    }
                    Err(e)
                },
            }
        } else {
            proof {
                assert(SIZE_2MIB != 0 && SIZE_2MIB & ((SIZE_2MIB - 1) as u64) == 0)
                    by (bit_vector);
                assert(vs <= vs + SIZE_2MIB - 1 < vs + size);
            }
            let virtual_middle_start = virtual_start.align_up(SIZE_2MIB);
            let ms = virtual_middle_start.raw();
            let me: u64 = (vs + size) & !(SIZE_2MIB - 1);
            proof {
                let bump = (vs + SIZE_2MIB - 1) as u64;
                crate::addr::lemma_align_down_2m(bump);
                crate::addr::lemma_align_down_2m((vs + size) as u64);
                lemma_canonicalise_fixes_aligned_2m(bump);
                assert(ms == crate::addr::spec_align_down(bump, SIZE_2MIB));
                assert(me == crate::addr::spec_align_down((vs + size) as u64, SIZE_2MIB));
                assert(vs <= ms && ms - vs < SIZE_2MIB && ms % SIZE_2MIB == 0);
                assert(me <= vs + size && (vs + size) - me < SIZE_2MIB && me % SIZE_2MIB == 0);
                assert(ms % SIZE_2MIB == 0 && ms <= (vs + size) as u64 ==> ms
                    <= ((vs + size) as u64) & !0x1f_ffffu64) by (bit_vector);
                assert(ms <= me);
                assert(ms % 0x20_0000 == 0 ==> ms % 0x1000 == 0) by (bit_vector);
                assert(me % 0x20_0000 == 0 ==> me % 0x1000 == 0) by (bit_vector);
            }
            let prefix_count = (ms - vs) / SIZE_4KIB;
            let middle_count = (me - ms) / SIZE_2MIB;
            let suffix_count = (vs + size - me) / SIZE_4KIB;
            proof {
                assert(prefix_count * SIZE_4KIB == ms - vs) by (nonlinear_arith)
                    requires
                        vs % SIZE_4KIB == 0,
                        ms % SIZE_4KIB == 0,
                        vs <= ms,
                        prefix_count == (ms - vs) / (SIZE_4KIB as int),
                ;
                assert(middle_count * SIZE_2MIB == me - ms) by (nonlinear_arith)
                    requires
                        ms % SIZE_2MIB == 0,
                        me % SIZE_2MIB == 0,
                        ms <= me,
                        middle_count == (me - ms) / (SIZE_2MIB as int),
                ;
                assert((vs + size - me) % (SIZE_4KIB as int) == 0) by (nonlinear_arith)
                    requires
                        me % SIZE_4KIB == 0,
                        vs % SIZE_4KIB == 0,
                        size % SIZE_4KIB == 0,
                        me <= vs + size,
                ;
                assert(suffix_count * SIZE_4KIB == vs + size - me) by (nonlinear_arith)
                    requires
                        (vs + size - me) % (SIZE_4KIB as int) == 0,
                        me <= vs + size,
                        suffix_count == (vs + size - me) / (SIZE_4KIB as int),
                ;
                assert((ps + (ms - vs)) % (SIZE_2MIB as int) == 0) by (nonlinear_arith)
                    requires
                        ps % SIZE_2MIB == vs % SIZE_2MIB,
                        ms % SIZE_2MIB == 0,
                        vs <= ms,
                        ms - vs < SIZE_2MIB,
                ;
                assert(3 * (prefix_count + 512 * middle_count + suffix_count) == 3 * (size
                    / SIZE_4KIB)) by (nonlinear_arith)
                    requires
                        prefix_count * SIZE_4KIB == ms - vs,
                        middle_count * SIZE_2MIB == me - ms,
                        suffix_count * SIZE_4KIB == vs + size - me,
                        size % SIZE_4KIB == 0,
                        vs <= ms <= me <= vs + size,
                ;
            }
            let physical_middle_start = PhysicalAddress::new_unchecked(ps + (ms - vs));
            match self.map_range_4k(
                virtual_start,
                physical_start,
                prefix_count,
                flags,
                allocator,
                tlb,
            ) {
                Ok(()) => {},
                Err(e) => {
                    proof {
                        let j = choose|j: u64|
                            j < prefix_count && spec_partial_map_4k(*old(self), *self, vs, ps, j);
                        let p = (vs + j * SIZE_4KIB) as u64;
                        assert(j * SIZE_4KIB < prefix_count * SIZE_4KIB) by (nonlinear_arith)
                            requires
                                j < prefix_count,
                        ;
                        assert(spec_partial_map_area(*old(self), *self, vs, ps, p));
                        assert(vs <= p < vs + size && !(old(self).can_map_4k(p) && old(
                            self,
                        ).can_map_2m(p)));
                    }
                    return Err(e);
                },
            }
            let ghost tlb1 = *tlb;
            let ghost s1 = *self;
            proof {
                assert forall|va: u64| ms <= va < me implies s1.can_map_2m(va) == old(
                    self,
                ).can_map_2m(va) by {
                    if prefix_count > 0 {
                        assert(ms % 0x20_0000 == 0 && ms > 0 ==> ((ms - 1) as u64)
                            & !0x1f_ffffu64 == ms - 0x20_0000) by (bit_vector);
                        assert(is_canonical(va));
                    }
                }
            }
            match self.map_range_2m(
                virtual_middle_start,
                physical_middle_start,
                middle_count,
                flags,
                allocator,
                tlb,
            ) {
                Ok(()) => {
                    proof {
                        vstd::map_lib::lemma_submap_of_trans(tlb.cached@, tlb1.cached@, old(tlb).cached@);
                    }
                },
                Err(e) => {
                    proof {
                        vstd::map_lib::lemma_submap_of_trans(tlb.cached@, tlb1.cached@, old(tlb).cached@);
                        let pm = (ps + (ms - vs)) as u64;
                        let j = choose|j: u64|
                            j < middle_count && spec_partial_map_2m(s1, *self, ms, pm, j);
                        let p = (ms + j * SIZE_2MIB) as u64;
                        assert(j * SIZE_2MIB < middle_count * SIZE_2MIB) by (nonlinear_arith)
                            requires
                                j < middle_count,
                        ;
                        assert(vs <= p < vs + size);
                        assert(!s1.can_map_2m(p) && !old(self).can_map_2m(p));
                        assert forall|va: u64| vs <= va < p implies self.translate_spec(va)
                            == Some((ps + (va - vs)) as u64) by {
                            assert(is_canonical(va));
                            if va < ms {
                                assert(!(ms <= va < ms + j * SIZE_2MIB));
                                assert(self.translate_spec(va) == s1.translate_spec(va));
                            }
                        }
                        assert forall|va: u64|
                            is_canonical(va) && !(vs <= va < p) implies self.translate_spec(va)
                            == old(self).translate_spec(va) by {
                            assert(!(ms <= va < ms + j * SIZE_2MIB));
                            assert(self.translate_spec(va) == s1.translate_spec(va));
                            assert(!(vs <= va < ms));
                        }
                        assert(spec_partial_map_area(*old(self), *self, vs, ps, p));
                    }
                    return Err(e);
                },
            }
            if suffix_count > 0 {
                proof {
                    assert(me < vs + size);
                    assert(is_canonical(me));
                }
                let virtual_middle_end = VirtualAddress::new_unchecked(me);
                let physical_middle_end = PhysicalAddress::new_unchecked(ps + (me - vs));
                let ghost tlb2 = *tlb;
                let ghost s2 = *self;
                proof {
                    assert forall|va: u64| me <= va < vs + size implies s2.can_map_4k(va) == old(
                        self,
                    ).can_map_4k(va) by {
                        assert(is_canonical(va));
                    }
                }
                match self.map_range_4k(
                    virtual_middle_end,
                    physical_middle_end,
                    suffix_count,
                    flags,
                    allocator,
                    tlb,
                ) {
                    Ok(()) => {
                        proof {
                            vstd::map_lib::lemma_submap_of_trans(tlb.cached@, tlb2.cached@, old(tlb).cached@);
                        }
                    },
                    Err(e) => {
                        proof {
                            vstd::map_lib::lemma_submap_of_trans(tlb.cached@, tlb2.cached@, old(tlb).cached@);
                            let pme = (ps + (me - vs)) as u64;
                            let j = choose|j: u64|
                                j < suffix_count && spec_partial_map_4k(s2, *self, me, pme, j);
                            let p = (me + j * SIZE_4KIB) as u64;
                            assert(j * SIZE_4KIB < suffix_count * SIZE_4KIB) by (nonlinear_arith)
                                requires
                                    j < suffix_count,
                            ;
                            assert(vs <= p < vs + size);
                            assert(!s2.can_map_4k(p) && !old(self).can_map_4k(p));
                            assert forall|va: u64| vs <= va < p implies self.translate_spec(va)
                                == Some((ps + (va - vs)) as u64) by {
                                assert(is_canonical(va));
                                if va < me {
                                    assert(!(me <= va < me + j * SIZE_4KIB));
                                    assert(self.translate_spec(va) == s2.translate_spec(va));
                                }
                            }
                            assert forall|va: u64|
                                is_canonical(va) && !(vs <= va < p) implies self.translate_spec(
                                va,
                            ) == old(self).translate_spec(va) by {
                                assert(!(me <= va < me + j * SIZE_4KIB));
                                assert(self.translate_spec(va) == s2.translate_spec(va));
                                assert(!(vs <= va < me));
                            }
                            assert(spec_partial_map_area(*old(self), *self, vs, ps, p));
                        }
                        return Err(e);
                    },
                }
            }
            proof {
                assert forall|va: u64| vs <= va < vs + size implies self.translate_spec(va)
                    == Some((ps + (va - vs)) as u64) by {
                    assert(is_canonical(va));
                }
                assert(ms == PageTableImpl::spec_middle_start(vs));
                assert(me == PageTableImpl::spec_middle_end(vs, size));
                assert forall|va: u64| vs <= va < ms implies self.mapped_4k(va) by {
                    assert(is_canonical(va));
                }
                assert forall|va: u64| ms <= va < me implies !self.mapped_4k(va) by {
                    assert(is_canonical(va));
                }
                assert forall|va: u64| me <= va < vs + size implies self.mapped_4k(va) by {
                    assert(is_canonical(va));
                }
            }
            Ok(())
        }
    }

    /// Walk the tables read-only and translate `address`, terminating at a
    /// 2 MiB leaf where one is installed. Absence at any level is a normal
    /// outcome, never a fault. The walk resolves only frames this space
    /// owns: an entry pointing into a subtree owned by another space (the
    /// shared kernel slot) resolves to nothing here — `translate_shared`
    /// follows such an entry through the owning space's tables.
    pub fn translate(&self, address: VirtualAddress) -> (r: Option<PhysicalAddress>)
        requires
            self.wf(),
        ensures
            match r {
                Some(p) => self.translate_spec(address@) == Some(p@),
                None => self.translate_spec(address@) is None,
            },
    {
        proof {
            lemma_indices_in_range(address@);
        }
        let p3 = match self.p4.next_table(address.p4_index(), &self.p3s) {
            Some(t) => t,
            None => {
                return None;
            },
        };
        let p2 = match p3.next_table(address.p3_index(), &self.p2s) {
            Some(t) => t,
            None => {
                return None;
            },
        };
        let p2_entry = p2.get_entry(address.p2_index());
        if p2_entry.is_present_bit() && p2_entry.is_huge_bit() {
            let base: u64 = p2_entry.address_bits();
            proof {
                lemma_leaf_sum_in_range_2m(p2_entry@, address@);
            }
            return Some(PhysicalAddress::new_unchecked(base + address.raw() % SIZE_2MIB));
        }
        let p1 = match p2.next_table(address.p2_index(), &self.p1s) {
            Some(t) => t,
            None => {
                return None;
            },
        };
        let p1_entry = p1.get_entry(address.p1_index());
        match p1_entry.address() {
            Some(base) => {
                proof {
                    lemma_leaf_sum_in_range_4k(p1_entry@, address@);
                }
                Some(PhysicalAddress::new_unchecked(base.raw() + address.raw() % SIZE_4KIB))
            },
            None => None,
        }
    }

    /// Translate `address` starting at this space's top level but resolving
    /// every child frame in `host`'s stores: how an address under a slot
    /// shared from `host` (the kernel's reserved entry) really translates.
    pub fn translate_shared(&self, host: &PageTableImpl, address: VirtualAddress) -> (r: Option<
        PhysicalAddress,
    >)
        requires
            self.spec_p4().len() == 512,
            host.wf(),
        ensures
            match r {
                Some(p) => self.translate_shared_spec(*host, address@) == Some(p@),
                None => self.translate_shared_spec(*host, address@) is None,
            },
    {
        proof {
            lemma_indices_in_range(address@);
        }
        let top = self.p4.get_entry(address.p4_index());
        if !top.is_present_bit() {
            return None;
        }
        let a3 = top.address_bits();
        let p3 = match host.p3s.get(&a3) {
            Some(t) => t,
            None => {
                return None;
            },
        };
        let p2 = match p3.next_table(address.p3_index(), &host.p2s) {
            Some(t) => t,
            None => {
                return None;
            },
        };
        let p2_entry = p2.get_entry(address.p2_index());
        if p2_entry.is_present_bit() && p2_entry.is_huge_bit() {
            let base: u64 = p2_entry.address_bits();
            proof {
                lemma_leaf_sum_in_range_2m(p2_entry@, address@);
            }
            return Some(PhysicalAddress::new_unchecked(base + address.raw() % SIZE_2MIB));
        }
        let p1 = match p2.next_table(address.p2_index(), &host.p1s) {
            Some(t) => t,
            None => {
                return None;
            },
        };
        let p1_entry = p1.get_entry(address.p1_index());
        match p1_entry.address() {
            Some(base) => {
                proof {
                    lemma_leaf_sum_in_range_4k(p1_entry@, address@);
                }
                Some(PhysicalAddress::new_unchecked(base.raw() + address.raw() % SIZE_4KIB))
            },
            None => None,
        }
    }
}

/// Two states whose tables read the same everywhere translate and admit
/// mappings identically.
proof fn lemma_state_views_agree(pre: PageTableImpl, post: PageTableImpl, va: u64)
    requires
        post.spec_p4() == pre.spec_p4(),
        forall|k: u64| post.p3s@.contains_key(k) == pre.p3s@.contains_key(k),
        forall|k: u64| pre.p3s@.contains_key(k) ==> (#[trigger] post.p3s@[k])@ == pre.p3s@[k]@,
        forall|k: u64| post.p2s@.contains_key(k) == pre.p2s@.contains_key(k),
        forall|k: u64| pre.p2s@.contains_key(k) ==> (#[trigger] post.p2s@[k])@ == pre.p2s@[k]@,
        forall|k: u64| post.p1s@.contains_key(k) == pre.p1s@.contains_key(k),
        forall|k: u64| pre.p1s@.contains_key(k) ==> (#[trigger] post.p1s@[k])@ == pre.p1s@[k]@,
    ensures
        post.translate_spec(va) == pre.translate_spec(va),
        post.can_map_4k(va) == pre.can_map_4k(va),
        post.can_map_2m(va) == pre.can_map_2m(va),
        post.mapped_4k(va) == pre.mapped_4k(va),
{
    lemma_indices_in_range(va);
}

/// Inside an aligned 4 KiB page, every address shares the page base's four
/// indices, and its in-page offset is its distance from the base.
proof fn lemma_in_page_4k(b: u64, va: u64)
    requires
        b % 0x1000 == 0,
        b <= va < b + 0x1000,
    ensures
        spec_p4_index(va) == spec_p4_index(b),
        spec_p3_index(va) == spec_p3_index(b),
        spec_p2_index(va) == spec_p2_index(b),
        spec_p1_index(va) == spec_p1_index(b),
        va % 0x1000 == va - b,
{
    assert((b % 0x1000 == 0 && b <= va && va < b + 0x1000) ==> ((va >> 39) & 0x1ff == (b >> 39)
        & 0x1ff && (va >> 30) & 0x1ff == (b >> 30) & 0x1ff && (va >> 21) & 0x1ff == (b >> 21)
        & 0x1ff && (va >> 12) & 0x1ff == (b >> 12) & 0x1ff && va % 0x1000 == va - b))
        by (bit_vector);
}

/// Inside an aligned 2 MiB block, every address shares the block base's top
/// three indices, and its in-block offset is its distance from the base.
proof fn lemma_in_block_2m(b: u64, va: u64)
    requires
        b % 0x20_0000 == 0,
        b <= va < b + 0x20_0000,
    ensures
        spec_p4_index(va) == spec_p4_index(b),
        spec_p3_index(va) == spec_p3_index(b),
        spec_p2_index(va) == spec_p2_index(b),
        va % 0x20_0000 == va - b,
{
    assert((b % 0x20_0000 == 0 && b <= va && va < b + 0x20_0000) ==> ((va >> 39) & 0x1ff == (b
        >> 39) & 0x1ff && (va >> 30) & 0x1ff == (b >> 30) & 0x1ff && (va >> 21) & 0x1ff == (b
        >> 21) & 0x1ff && va % 0x20_0000 == va - b)) by (bit_vector);
}

/// Two canonical addresses with the same four indices lie in the same
/// 4 KiB page.
proof fn lemma_same_indices_4k(b: u64, va: u64)
    requires
        is_canonical(b),
        is_canonical(va),
        b % 0x1000 == 0,
        spec_p4_index(va) == spec_p4_index(b),
        spec_p3_index(va) == spec_p3_index(b),
        spec_p2_index(va) == spec_p2_index(b),
        spec_p1_index(va) == spec_p1_index(b),
    ensures
        b <= va < b + 0x1000,
{
    assert(((b < 0x0000_8000_0000_0000 || b >= 0xffff_8000_0000_0000) && (va
        < 0x0000_8000_0000_0000 || va >= 0xffff_8000_0000_0000) && b % 0x1000 == 0 && (va >> 39)
        & 0x1ff == (b >> 39) & 0x1ff && (va >> 30) & 0x1ff == (b >> 30) & 0x1ff && (va >> 21)
        & 0x1ff == (b >> 21) & 0x1ff && (va >> 12) & 0x1ff == (b >> 12) & 0x1ff) ==> (b <= va && va
        < b + 0x1000)) by (bit_vector);
}

/// Two canonical addresses with the same top three indices lie in the same
/// 2 MiB block.
proof fn lemma_same_indices_2m(b: u64, va: u64)
    requires
        is_canonical(b),
        is_canonical(va),
        b % 0x20_0000 == 0,
        spec_p4_index(va) == spec_p4_index(b),
        spec_p3_index(va) == spec_p3_index(b),
        spec_p2_index(va) == spec_p2_index(b),
    ensures
        b <= va < b + 0x20_0000,
{
    assert(((b < 0x0000_8000_0000_0000 || b >= 0xffff_8000_0000_0000) && (va
        < 0x0000_8000_0000_0000 || va >= 0xffff_8000_0000_0000) && b % 0x20_0000 == 0 && (va
        >> 39) & 0x1ff == (b >> 39) & 0x1ff && (va >> 30) & 0x1ff == (b >> 30) & 0x1ff && (va
        >> 21) & 0x1ff == (b >> 21) & 0x1ff) ==> (b <= va && va < b + 0x20_0000)) by (bit_vector);
}

/// After a mapping change along one 4-level path, every address whose index
/// tuple differs from the path translates exactly as before.
///
/// `pre` and `post` are the states around the change; `(i4, i3, i2, i1)` are
/// the path's indices and `a3`, `a2`, `a1` the frames of the tables walked
/// through (created or reused). The hypotheses say that the stores agree
/// outside those frames, that the walked tables agree outside the path
/// indices (fresh tables being zero there), that the pre state linked the
/// same frames wherever its path went, and that no other present entry of
/// the pre state shares a path frame — the tree-shape part of `wf`.
proof fn lemma_other_paths_unchanged(
    pre: PageTableImpl,
    post: PageTableImpl,
    i4: int,
    i3: int,
    i2: int,
    i1: int,
    a3: u64,
    a2: u64,
    a1: u64,
    va: u64,
)
    requires
        0 <= i4 < 512,
        0 <= i3 < 512,
        0 <= i2 < 512,
        0 <= i1 < 512,
        // the post state's path
        post.p4@.len() == 512,
        post.p4@[i4].is_present(),
        !post.p4@[i4].is_huge(),
        post.p4@[i4].spec_addr() == a3,
        post.p3s@.contains_key(a3),
        post.p3s@[a3]@.len() == 512,
        post.p3s@[a3]@[i3].is_present(),
        !post.p3s@[a3]@[i3].is_huge(),
        post.p3s@[a3]@[i3].spec_addr() == a2,
        post.p2s@.contains_key(a2),
        post.p2s@[a2]@.len() == 512,
        post.p2s@[a2]@[i2].is_present(),
        !post.p2s@[a2]@[i2].is_huge(),
        post.p2s@[a2]@[i2].spec_addr() == a1,
        post.p1s@.contains_key(a1),
        post.p1s@[a1]@.len() == 512,
        // agreement outside the path
        forall|j: int| 0 <= j < 512 && j != i4 ==> post.p4@[j] == pre.p4@[j],
        forall|k: u64| k != a3 ==> post.p3s@.contains_key(k) == pre.p3s@.contains_key(k),
        forall|k: u64|
            k != a3 && pre.p3s@.contains_key(k) ==> post.p3s@[k] == #[trigger] pre.p3s@[k],
        forall|k: u64| k != a2 ==> post.p2s@.contains_key(k) == pre.p2s@.contains_key(k),
        forall|k: u64|
            k != a2 && pre.p2s@.contains_key(k) ==> post.p2s@[k] == #[trigger] pre.p2s@[k],
        forall|k: u64| k != a1 ==> post.p1s@.contains_key(k) == pre.p1s@.contains_key(k),
        forall|k: u64|
            k != a1 && pre.p1s@.contains_key(k) ==> post.p1s@[k] == #[trigger] pre.p1s@[k],
        // the walked tables agree outside the path indices; fresh ones are
        // zero there
        pre.p3s@.contains_key(a3) ==> forall|j: int|
            0 <= j < 512 && j != i3 ==> post.p3s@[a3]@[j] == pre.p3s@[a3]@[j],
        !pre.p3s@.contains_key(a3) ==> forall|j: int|
            0 <= j < 512 && j != i3 ==> (#[trigger] post.p3s@[a3]@[j])@ == 0,
        pre.p2s@.contains_key(a2) ==> forall|j: int|
            0 <= j < 512 && j != i2 ==> post.p2s@[a2]@[j] == pre.p2s@[a2]@[j],
        !pre.p2s@.contains_key(a2) ==> forall|j: int|
            0 <= j < 512 && j != i2 ==> (#[trigger] post.p2s@[a2]@[j])@ == 0,
        pre.p1s@.contains_key(a1) ==> forall|j: int|
            0 <= j < 512 && j != i1 ==> post.p1s@[a1]@[j] == pre.p1s@[a1]@[j],
        !pre.p1s@.contains_key(a1) ==> forall|j: int|
            0 <= j < 512 && j != i1 ==> (#[trigger] post.p1s@[a1]@[j])@ == 0,
        // where the pre state's path went
        pre.p4@[i4].is_present() <==> pre.p3s@.contains_key(a3),
        pre.p4@[i4].is_present() ==> !pre.p4@[i4].is_huge() && pre.p4@[i4].spec_addr() == a3,
        (pre.p3s@.contains_key(a3) && pre.p3s@[a3]@[i3].is_present()) <==> pre.p2s@.contains_key(
            a2,
        ),
        pre.p3s@.contains_key(a3) && pre.p3s@[a3]@[i3].is_present() ==> !pre.p3s@[a3]@[i3].is_huge()
            && pre.p3s@[a3]@[i3].spec_addr() == a2,
        (pre.p2s@.contains_key(a2) && pre.p2s@[a2]@[i2].is_present()) <==> pre.p1s@.contains_key(
            a1,
        ),
        pre.p2s@.contains_key(a2) && pre.p2s@[a2]@[i2].is_present() ==> !pre.p2s@[a2]@[i2].is_huge()
            && pre.p2s@[a2]@[i2].spec_addr() == a1,
        // no other present entry of the pre state shares a path frame
        forall|j: int|
            0 <= j < 512 && j != i4 && (#[trigger] pre.p4@[j]).is_present() ==> pre.p4@[j].spec_addr()
                != a3,
        forall|k: u64, j: int|
            pre.p3s@.contains_key(k) && 0 <= j < 512 && (k != a3 || j != i3) && (
            #[trigger] pre.p3s@[k]@[j]).is_present() ==> pre.p3s@[k]@[j].spec_addr() != a2,
        forall|k: u64, j: int|
            pre.p2s@.contains_key(k) && 0 <= j < 512 && (k != a2 || j != i2) && (
            #[trigger] pre.p2s@[k]@[j]).is_present() && !pre.p2s@[k]@[j].is_huge()
                ==> pre.p2s@[k]@[j].spec_addr() != a1,
        // the address under consideration leaves the path at some level
        !(spec_p4_index(va) == i4 && spec_p3_index(va) == i3 && spec_p2_index(va) == i2
            && spec_p1_index(va) == i1),
    ensures
        post.translate_spec(va) == pre.translate_spec(va),
        post.can_map_4k(va) == pre.can_map_4k(va),
        post.mapped_4k(va) == pre.mapped_4k(va),
        !(spec_p4_index(va) == i4 && spec_p3_index(va) == i3 && spec_p2_index(va) == i2)
            ==> post.can_map_2m(va) == pre.can_map_2m(va),
{
    crate::entry::lemma_zero_entry();
    lemma_indices_in_range(va);
    let j4 = spec_p4_index(va) as int;
    let j3 = spec_p3_index(va) as int;
    let j2 = spec_p2_index(va) as int;
    let j1 = spec_p1_index(va) as int;
    if j4 != i4 {
        assert(post.p4@[j4] == pre.p4@[j4]);
        if pre.p4@[j4].is_present() {
            let b3 = pre.p4@[j4].spec_addr();
            assert(b3 != a3);
            if pre.p3s@.contains_key(b3) {
                assert(post.p3s@[b3] == pre.p3s@[b3]);
                let e3 = pre.p3s@[b3]@[j3];
                if e3.is_present() {
                    let b2 = e3.spec_addr();
                    assert(b2 != a2);
                    if pre.p2s@.contains_key(b2) {
                        assert(post.p2s@[b2] == pre.p2s@[b2]);
                        let e2 = pre.p2s@[b2]@[j2];
                        if e2.is_present() && !e2.is_huge() {
                            let b1 = e2.spec_addr();
                            assert(b1 != a1);
                            if pre.p1s@.contains_key(b1) {
                                assert(post.p1s@[b1] == pre.p1s@[b1]);
                            }
                        }
                    }
                }
            }
        }
    } else if j3 != i3 {
        if pre.p3s@.contains_key(a3) {
            assert(post.p3s@[a3]@[j3] == pre.p3s@[a3]@[j3]);
            let e3 = pre.p3s@[a3]@[j3];
            if e3.is_present() {
                let b2 = e3.spec_addr();
                assert(b2 != a2);
                if pre.p2s@.contains_key(b2) {
                    assert(post.p2s@[b2] == pre.p2s@[b2]);
                    let e2 = pre.p2s@[b2]@[j2];
                    if e2.is_present() && !e2.is_huge() {
                        let b1 = e2.spec_addr();
                        assert(b1 != a1);
                        if pre.p1s@.contains_key(b1) {
                            assert(post.p1s@[b1] == pre.p1s@[b1]);
                        }
                    }
                }
            }
        } else {
            assert(post.p3s@[a3]@[j3]@ == 0);
            assert(!pre.p4@[i4].is_present());
        }
    } else if j2 != i2 {
        if pre.p2s@.contains_key(a2) {
            assert(post.p2s@[a2]@[j2] == pre.p2s@[a2]@[j2]);
            let e2 = pre.p2s@[a2]@[j2];
            if e2.is_present() && !e2.is_huge() {
                let b1 = e2.spec_addr();
                assert(b1 != a1);
                if pre.p1s@.contains_key(b1) {
                    assert(post.p1s@[b1] == pre.p1s@[b1]);
                }
            }
        } else {
            assert(post.p2s@[a2]@[j2]@ == 0);
            assert(!(pre.p3s@.contains_key(a3) && pre.p3s@[a3]@[i3].is_present()));
        }
    } else {
        assert(j1 != i1);
        if pre.p1s@.contains_key(a1) {
            assert(post.p1s@[a1]@[j1] == pre.p1s@[a1]@[j1]);
            assert(pre.p2s@.contains_key(a2) && pre.p2s@[a2]@[i2].is_present());
        } else {
            assert(post.p1s@[a1]@[j1]@ == 0);
            assert(!(pre.p2s@.contains_key(a2) && pre.p2s@[a2]@[i2].is_present()));
        }
    }
}

/// After a 2 MiB mapping change along one 3-level path, every address whose
/// top three indices differ from the path translates exactly as before.
proof fn lemma_other_paths_unchanged_2m(
    pre: PageTableImpl,
    post: PageTableImpl,
    i4: int,
    i3: int,
    i2: int,
    a3: u64,
    a2: u64,
    va: u64,
)
    requires
        0 <= i4 < 512,
        0 <= i3 < 512,
        0 <= i2 < 512,
        post.p4@.len() == 512,
        post.p4@[i4].is_present(),
        !post.p4@[i4].is_huge(),
        post.p4@[i4].spec_addr() == a3,
        post.p3s@.contains_key(a3),
        post.p3s@[a3]@.len() == 512,
        post.p3s@[a3]@[i3].is_present(),
        !post.p3s@[a3]@[i3].is_huge(),
        post.p3s@[a3]@[i3].spec_addr() == a2,
        post.p2s@.contains_key(a2),
        post.p2s@[a2]@.len() == 512,
        forall|j: int| 0 <= j < 512 && j != i4 ==> post.p4@[j] == pre.p4@[j],
        forall|k: u64| k != a3 ==> post.p3s@.contains_key(k) == pre.p3s@.contains_key(k),
        forall|k: u64|
            k != a3 && pre.p3s@.contains_key(k) ==> post.p3s@[k] == #[trigger] pre.p3s@[k],
        forall|k: u64| k != a2 ==> post.p2s@.contains_key(k) == pre.p2s@.contains_key(k),
        forall|k: u64|
            k != a2 && pre.p2s@.contains_key(k) ==> post.p2s@[k] == #[trigger] pre.p2s@[k],
        post.p1s@ == pre.p1s@,
        pre.p3s@.contains_key(a3) ==> forall|j: int|
            0 <= j < 512 && j != i3 ==> post.p3s@[a3]@[j] == pre.p3s@[a3]@[j],
        !pre.p3s@.contains_key(a3) ==> forall|j: int|
            0 <= j < 512 && j != i3 ==> (#[trigger] post.p3s@[a3]@[j])@ == 0,
        pre.p2s@.contains_key(a2) ==> forall|j: int|
            0 <= j < 512 && j != i2 ==> post.p2s@[a2]@[j] == pre.p2s@[a2]@[j],
        !pre.p2s@.contains_key(a2) ==> forall|j: int|
            0 <= j < 512 && j != i2 ==> (#[trigger] post.p2s@[a2]@[j])@ == 0,
        pre.p4@[i4].is_present() <==> pre.p3s@.contains_key(a3),
        pre.p4@[i4].is_present() ==> !pre.p4@[i4].is_huge() && pre.p4@[i4].spec_addr() == a3,
        (pre.p3s@.contains_key(a3) && pre.p3s@[a3]@[i3].is_present()) <==> pre.p2s@.contains_key(
            a2,
        ),
        pre.p3s@.contains_key(a3) && pre.p3s@[a3]@[i3].is_present() ==> !pre.p3s@[a3]@[i3].is_huge()
            && pre.p3s@[a3]@[i3].spec_addr() == a2,
        forall|j: int|
            0 <= j < 512 && j != i4 && (#[trigger] pre.p4@[j]).is_present() ==> pre.p4@[j].spec_addr()
                != a3,
        forall|k: u64, j: int|
            pre.p3s@.contains_key(k) && 0 <= j < 512 && (k != a3 || j != i3) && (
            #[trigger] pre.p3s@[k]@[j]).is_present() ==> pre.p3s@[k]@[j].spec_addr() != a2,
        !(spec_p4_index(va) == i4 && spec_p3_index(va) == i3 && spec_p2_index(va) == i2),
    ensures
        post.translate_spec(va) == pre.translate_spec(va),
        post.can_map_4k(va) == pre.can_map_4k(va),
        post.can_map_2m(va) == pre.can_map_2m(va),
        post.mapped_4k(va) == pre.mapped_4k(va),
{
    crate::entry::lemma_zero_entry();
    lemma_indices_in_range(va);
    let j4 = spec_p4_index(va) as int;
    let j3 = spec_p3_index(va) as int;
    let j2 = spec_p2_index(va) as int;
    if j4 != i4 {
        assert(post.p4@[j4] == pre.p4@[j4]);
        if pre.p4@[j4].is_present() {
            let b3 = pre.p4@[j4].spec_addr();
            assert(b3 != a3);
            if pre.p3s@.contains_key(b3) {
                assert(post.p3s@[b3] == pre.p3s@[b3]);
                let e3 = pre.p3s@[b3]@[j3];
                if e3.is_present() {
                    let b2 = e3.spec_addr();
                    assert(b2 != a2);
                    if pre.p2s@.contains_key(b2) {
                        assert(post.p2s@[b2] == pre.p2s@[b2]);
                    }
                }
            }
        }
    } else if j3 != i3 {
        if pre.p3s@.contains_key(a3) {
            assert(post.p3s@[a3]@[j3] == pre.p3s@[a3]@[j3]);
            let e3 = pre.p3s@[a3]@[j3];
            if e3.is_present() {
                let b2 = e3.spec_addr();
                assert(b2 != a2);
                if pre.p2s@.contains_key(b2) {
                    assert(post.p2s@[b2] == pre.p2s@[b2]);
                }
            }
        } else {
            assert(post.p3s@[a3]@[j3]@ == 0);
            assert(!pre.p4@[i4].is_present());
        }
    } else {
        assert(j2 != i2);
        if pre.p2s@.contains_key(a2) {
            assert(post.p2s@[a2]@[j2] == pre.p2s@[a2]@[j2]);
            assert(pre.p3s@.contains_key(a3) && pre.p3s@[a3]@[i3].is_present());
        } else {
            assert(post.p2s@[a2]@[j2]@ == 0);
            assert(!(pre.p3s@.contains_key(a3) && pre.p3s@[a3]@[i3].is_present()));
        }
    }
}

/// What an aborted 4 KiB range mapping leaves behind: the first `j` pages
/// of the range are installed and translate to their targets, the page at
/// position `j` was not mappable in the pre state, and every other
/// translation is exactly as before — installed pages are kept, never
/// rolled back.
pub open spec fn spec_partial_map_4k(
    pre: PageTableImpl,
    post: PageTableImpl,
    vs: u64,
    ps: u64,
    j: u64,
) -> bool {
    &&& !pre.can_map_4k((vs + j * SIZE_4KIB) as u64)
    &&& forall|va: u64|
        vs <= va < vs + j * SIZE_4KIB ==> post.translate_spec(va) == Some(
            (ps + (va - vs)) as u64,
        )
    &&& forall|va: u64|
        is_canonical(va) && !(vs <= va < vs + j * SIZE_4KIB) ==> post.translate_spec(va)
            == pre.translate_spec(va)
}

/// What an aborted 2 MiB range mapping leaves behind, block-wise.
pub open spec fn spec_partial_map_2m(
    pre: PageTableImpl,
    post: PageTableImpl,
    vs: u64,
    ps: u64,
    j: u64,
) -> bool {
    &&& !pre.can_map_2m((vs + j * SIZE_2MIB) as u64)
    &&& forall|va: u64|
        vs <= va < vs + j * SIZE_2MIB ==> post.translate_spec(va) == Some(
            (ps + (va - vs)) as u64,
        )
    &&& forall|va: u64|
        is_canonical(va) && !(vs <= va < vs + j * SIZE_2MIB) ==> post.translate_spec(va)
            == pre.translate_spec(va)
}

/// What an aborted region mapping leaves behind: everything below the
/// blocked address `p` is installed and translates to its target, and every
/// other translation is exactly as before.
pub open spec fn spec_partial_map_area(
    pre: PageTableImpl,
    post: PageTableImpl,
    vs: u64,
    ps: u64,
    p: u64,
) -> bool {
    &&& forall|va: u64| vs <= va < p ==> post.translate_spec(va) == Some((ps + (va - vs)) as u64)
    &&& forall|va: u64|
        is_canonical(va) && !(vs <= va < p) ==> post.translate_spec(va) == pre.translate_spec(va)
}

/// The kernel-sharing law: a space whose reserved top-level slot carries
/// the same child frame as the kernel's own slot resolves every address
/// under that slot through the kernel's tables exactly as the kernel does.
pub proof fn lemma_kernel_region_shared(child: PageTableImpl, kernel: PageTableImpl, va: u64)
    requires
        spec_p4_index(va) == KERNEL_P4_ENTRY,
        child.spec_p4_entry(KERNEL_P4_ENTRY as int).is_present(),
        kernel.spec_p4_entry(KERNEL_P4_ENTRY as int).is_present(),
        child.spec_p4_entry(KERNEL_P4_ENTRY as int).spec_addr() == kernel.spec_p4_entry(
            KERNEL_P4_ENTRY as int,
        ).spec_addr(),
    ensures
        child.translate_shared_spec(kernel, va) == kernel.translate_spec(va),
{
}

/// A page that already translates cannot be mapped again without an
/// intervening unmap: once `translate_spec` answers for an address, both the
/// 4 KiB and the 2 MiB mapping of its page are refused, so an established
/// mapping is never silently overwritten.
pub proof fn lemma_mapped_page_cannot_be_remapped(s: PageTableImpl, va: u64)
    requires
        s.translate_spec(va) is Some,
    ensures
        !s.can_map_4k(va),
        !s.can_map_2m(va),
{
}

/// Canonicalisation fixes the 2 MiB-aligned floor of a canonical address.
proof fn lemma_canonicalise_fixes_aligned_2m(x: u64)
    requires
        is_canonical(x),
    ensures
        crate::addr::spec_canonicalise(crate::addr::spec_align_down(x, SIZE_2MIB))
            == crate::addr::spec_align_down(x, SIZE_2MIB),
{
    assert(SIZE_2MIB != 0 && SIZE_2MIB & ((SIZE_2MIB - 1) as u64) == 0 && SIZE_2MIB
        <= crate::addr::LOW_HALF_END) by (bit_vector);
    if x < crate::addr::LOW_HALF_END {
        crate::addr::lemma_align_down_canonical_low(x, SIZE_2MIB);
    } else {
        crate::addr::lemma_align_down_canonical_high(x, SIZE_2MIB);
    }
}

/// Aligning down to the 2 MiB grid is monotone.
proof fn lemma_align_down_2m_monotone(x: u64, y: u64)
    requires
        x <= y,
    ensures
        crate::addr::spec_align_down(x, SIZE_2MIB) <= crate::addr::spec_align_down(y, SIZE_2MIB),
{
    assert(x <= y ==> x & !0x1f_ffffu64 <= y & !0x1f_ffffu64) by (bit_vector);
}

/// A flag set clear of the address field keeps that property when the
/// huge-page bit is added, and the result carries the huge-page bit.
proof fn lemma_huge_flags(f: u64)
    requires
        f & ADDRESS_MASK == 0,
    ensures
        (f | HUGE_PAGE) & ADDRESS_MASK == 0,
        (f | HUGE_PAGE) & HUGE_PAGE == HUGE_PAGE,
{
    assert(f & 0x000f_ffff_ffff_f000 == 0 ==> ((f | 0x80u64) & 0x000f_ffff_ffff_f000 == 0 && (f
        | 0x80u64) & 0x80u64 == 0x80u64)) by (bit_vector);
}

/// A present 2 MiB-aligned leaf plus an in-block offset stays inside the
/// physical address space.
proof fn lemma_leaf_sum_in_range_2m(bits: u64, va: u64)
    requires
        (bits & ADDRESS_MASK) % 0x20_0000 == 0,
    ensures
        (bits & ADDRESS_MASK) + va % 0x20_0000 < MAX_PHYSICAL_ADDRESS,
        ((bits & ADDRESS_MASK) + va % 0x20_0000) as u64 == (bits & ADDRESS_MASK) + va % 0x20_0000,
{
    assert((bits & 0x000f_ffff_ffff_f000) % 0x20_0000 == 0 ==> (bits & 0x000f_ffff_ffff_f000) + va
        % 0x20_0000 < 0x0010_0000_0000_0000) by (bit_vector);
}

/// A 4 KiB leaf plus an in-page offset stays inside the physical address
/// space.
proof fn lemma_leaf_sum_in_range_4k(bits: u64, va: u64)
    ensures
        (bits & ADDRESS_MASK) + va % 0x1000 < MAX_PHYSICAL_ADDRESS,
        ((bits & ADDRESS_MASK) + va % 0x1000) as u64 == (bits & ADDRESS_MASK) + va % 0x1000,
{
    assert((bits & 0x000f_ffff_ffff_f000) + va % 0x1000 < 0x0010_0000_0000_0000) by (bit_vector);
}

} // verus!
