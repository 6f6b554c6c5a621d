//! Level-tagged page tables of 512 entries, and the hierarchical walk
//! between a table and its children.
//!
//! Tables live in physical frames; this layer holds each one as an owned
//! value keyed by the physical base of its frame, so a parent entry's packed
//! address is the lookup key of the child table. The level tag makes "fetch
//! the child table" inexpressible on the lowest level.

use std::collections::HashMap;

use vstd::prelude::*;

use crate::entry::{lemma_packed_entry, Entry, ADDRESS_MASK};
use crate::flags::{EntryFlags, HUGE_PAGE, NON_TERMINAL_FLAGS, PRESENT};
use crate::frames::{FrameAllocator, PagingError};

verus! {

broadcast use vstd::std_specs::hash::group_hash_axioms;

/// The top level of the tree (the paging root points at such a table).
pub struct Level4;

/// The third level, below the top.
pub struct Level3;

/// The second level; its entries may be 2 MiB leaves.
pub struct Level2;

/// The lowest level; its entries are always 4 KiB leaves.
pub struct Level1;

/// A marker for any table level.
pub trait TableLevel: Sized {

}

impl TableLevel for Level4 {

}

impl TableLevel for Level3 {

}

impl TableLevel for Level2 {

}

impl TableLevel for Level1 {

}

/// Levels whose tables hold child tables rather than 4 KiB leaves. The
/// lowest level deliberately has no implementation, so a walk past it does
/// not type-check.
pub trait HierarchicalLevel: TableLevel {
    /// The level of this level's child tables.
    type NextLevel: TableLevel;
}

impl HierarchicalLevel for Level4 {
    type NextLevel = Level3;
}

impl HierarchicalLevel for Level3 {
    type NextLevel = Level2;
}

impl HierarchicalLevel for Level2 {
    type NextLevel = Level1;
}

/// The number of entries in every table.
pub const ENTRY_COUNT: usize = 512;

/// One page table: exactly 512 entries, tagged with its level.
pub struct Table<L: TableLevel> {
    entries: Vec<Entry>,
    _level: core::marker::PhantomData<L>,
}

impl<L: TableLevel> View for Table<L> {
    type V = Seq<Entry>;

    closed spec fn view(&self) -> Seq<Entry> {
        self.entries@
    }
}

impl<L: TableLevel> Table<L> {
    /// A table is well formed when it has 512 entries, each all-zero or
    /// present.
    pub open spec fn wf(self) -> bool {
        &&& self@.len() == 512
        &&& forall|i: int| 0 <= i < 512 ==> (#[trigger] self@[i]).wf()
    }

    /// Whether every entry is the unused sentinel.
    pub open spec fn is_zeroed(self) -> bool {
        &&& self@.len() == 512
        &&& forall|i: int| 0 <= i < 512 ==> (#[trigger] self@[i])@ == 0
    }

    /// A fresh table with every entry unused.
    pub fn new() -> (r: Table<L>)
        ensures
            r.is_zeroed(),
            r.wf(),
    {
        let mut entries: Vec<Entry> = Vec::new();
        let mut i: usize = 0;
        while i < ENTRY_COUNT
            invariant
                i <= 512,
                entries@.len() == i,
                forall|j: int| 0 <= j < i ==> (#[trigger] entries@[j])@ == 0,
            decreases 512 - i,
        {
            entries.push(Entry::unused());
            i = i + 1;
        }
        Table { entries, _level: core::marker::PhantomData }
    }

    /// Clear every entry to the unused sentinel.
    pub fn zero(&mut self)
        requires
            old(self)@.len() == 512,
        ensures
            final(self).is_zeroed(),
    {
        let mut i: usize = 0;
        while i < ENTRY_COUNT
            invariant
                i <= 512,
                self@.len() == 512,
                forall|j: int| 0 <= j < i ==> (#[trigger] self@[j])@ == 0,
            decreases 512 - i,
        {
            self.entries.set(i, Entry::unused());
            i = i + 1;
        }
    }

    /// Read the entry at `index`.
    pub fn get_entry(&self, index: usize) -> (r: Entry)
        requires
            index < self@.len(),
        ensures
            r == self@[index as int],
    {
        self.entries[index]
    }

    /// Replace the entry at `index`.
    pub fn set_entry(&mut self, index: usize, entry: Entry)
        requires
            index < old(self)@.len(),
        ensures
            final(self)@ == old(self)@.update(index as int, entry),
    {
        self.entries.set(index, entry);
    }
}

impl<L: HierarchicalLevel> Table<L> {
    /// The child table below the entry at `index`, found in the store of
    /// child tables. Nothing comes back in two distinct situations: the slot
    /// is unused (the original absent case), or the slot is present but its
    /// child frame is not in this store — a *foreign* child, owned by
    /// another address space, as the kernel's shared subtree is in every
    /// other space. A foreign child is reachable only through its owning
    /// space's store; here the walk stops.
    pub fn next_table<'a>(&self, index: usize, children: &'a HashMap<u64, Table<L::NextLevel>>)
        -> (r: Option<&'a Table<L::NextLevel>>)
        requires
            self@.len() == 512,
            index < 512,
        ensures
            match r {
                Some(t) => {
                    &&& self@[index as int].is_present()
                    &&& children@.contains_key(self@[index as int].spec_addr())
                    &&& *t == children@[self@[index as int].spec_addr()]
                },
                None => !self@[index as int].is_present() || !children@.contains_key(
                    self@[index as int].spec_addr(),
                ),
            },
    {
        let entry = self.get_entry(index);
        match entry.address() {
            Some(address) => {
                let key: u64 = address.raw();
                children.get(&key)
            },
            None => None,
        }
    }

    /// The single choke point for creating intermediate tables on demand.
    ///
    /// Four cases, the contract separating them exactly:
    /// - the slot is empty: a fresh frame is drawn from the allocator, a
    ///   zeroed child table is installed under it with the non-terminal flag
    ///   set, and its frame base is returned;
    /// - the slot holds a huge-page leaf: the region is already mapped, and
    ///   the call fails with `AlreadyMapped` without drawing a frame;
    /// - the slot holds an owned child: its frame base is returned and
    ///   nothing changes;
    /// - the slot holds a *foreign* child — present, not huge, but backed by
    ///   a frame another address space owns, as the kernel's shared subtree
    ///   is here. The region is claimed by a mapping this store cannot edit,
    ///   so the call also fails with `AlreadyMapped`, again drawing no
    ///   frame. This case stands where the original dereferenced the frame
    ///   directly, which only the owning space can do.
    pub fn next_table_create<A: FrameAllocator>(
        &mut self,
        index: usize,
        children: &mut HashMap<u64, Table<L::NextLevel>>,
        allocator: &mut A,
    ) -> (r: Result<u64, PagingError>)
        requires
            old(self).wf(),
            index < 512,
            old(allocator).inv(),
            old(allocator).remaining() >= 1,
            forall|k: u64| old(children)@.contains_key(k) ==> old(allocator).allocated().contains(
                k,
            ),
        ensures
            final(self).wf(),
            final(allocator).inv(),
            final(allocator).remaining() >= old(allocator).remaining() - 1,
            old(allocator).allocated().subset_of(final(allocator).allocated()),
            forall|k: u64|
                final(children)@.contains_key(k) ==> final(allocator).allocated().contains(k),
            match r {
                Ok(child) => {
                    &&& final(self)@.len() == 512
                    &&& final(self)@[index as int].is_present()
                    &&& !final(self)@[index as int].is_huge()
                    &&& final(self)@[index as int].spec_addr() == child
                    &&& forall|j: int|
                        0 <= j < 512 && j != index ==> final(self)@[j] == old(self)@[j]
                    &&& final(children)@.contains_key(child)
                    &&& child % 0x1000 == 0
                    &&& if old(self)@[index as int].is_present() {
                        &&& final(self)@ == old(self)@
                        &&& final(children)@ == old(children)@
                        &&& child == old(self)@[index as int].spec_addr()
                        &&& *final(allocator) == *old(allocator)
                    } else {
                        &&& !old(allocator).allocated().contains(child)
                        &&& final(allocator).allocated() == old(allocator).allocated().insert(
                            child,
                        )
                        &&& final(allocator).remaining() == old(allocator).remaining() - 1
                        &&& !old(children)@.contains_key(child)
                        &&& final(children)@.dom() == old(children)@.dom().insert(child)
                        &&& forall|k: u64|
                            old(children)@.contains_key(k) && k != child
                                ==> final(children)@[k] == old(children)@[k]
                        &&& final(children)@[child].is_zeroed()
                        &&& final(self)@[index as int]@ == (child & ADDRESS_MASK)
                            | NON_TERMINAL_FLAGS | PRESENT
                        &&& final(self)@ == old(self)@.update(
                            index as int,
                            final(self)@[index as int],
                        )
                    }
                },
                Err(e) => {
                    &&& e == PagingError::AlreadyMapped
                    &&& final(self)@ == old(self)@
                    &&& final(children)@ == old(children)@
                    &&& *final(allocator) == *old(allocator)
                    &&& old(self)@[index as int].is_present()
                    &&& (old(self)@[index as int].is_huge() || !old(children)@.contains_key(
                        old(self)@[index as int].spec_addr(),
                    ))
                },
            },
    {
        let entry = self.get_entry(index);
        if !entry.is_present_bit() {
            let frame = allocator.allocate();
            let base = frame.start();
            let child: u64 = base.raw();
            proof {
                use_type_invariant(&base);
                lemma_non_terminal_flags_shape();
                lemma_packed_entry(child, NON_TERMINAL_FLAGS);
            }
            let mut slot = Entry::unused();
            slot.set(Some((base, EntryFlags::from_bits_raw(NON_TERMINAL_FLAGS))));
            self.set_entry(index, slot);
            let table: Table<L::NextLevel> = Table::new();
            children.insert(child, table);
            Ok(child)
        } else if entry.is_huge_bit() {
            Err(PagingError::AlreadyMapped)
        } else {
            match entry.address() {
                Some(address) => {
                    let key: u64 = address.raw();
                    if children.contains_key(&key) {
                        proof {
                            use_type_invariant(&address);
                            lemma_entry_addr_aligned(entry@);
                        }
                        Ok(key)
                    } else {
                        Err(PagingError::AlreadyMapped)
                    }
                },
                None => {
                    proof {
                        assert(false);
                    }
                    Err(PagingError::AlreadyMapped)
                },
            }
        }
    }
}

/// The non-terminal flag set is present, not huge, and clear of the address
/// field.
pub proof fn lemma_non_terminal_flags_shape()
    ensures
        NON_TERMINAL_FLAGS & ADDRESS_MASK == 0,
        NON_TERMINAL_FLAGS & PRESENT == PRESENT,
        NON_TERMINAL_FLAGS & HUGE_PAGE == 0,
{
    assert(0x7u64 & 0x000f_ffff_ffff_f000 == 0 && 0x7u64 & 0x1 == 0x1 && 0x7u64 & 0x80 == 0)
        by (bit_vector);
}

/// A packed entry's address field is always 4 KiB aligned.
pub proof fn lemma_entry_addr_aligned(bits: u64)
    ensures
        (bits & ADDRESS_MASK) % 0x1000 == 0,
{
    assert((bits & 0x000f_ffff_ffff_f000) % 0x1000 == 0) by (bit_vector);
}

} // verus!
