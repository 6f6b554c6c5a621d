//! A single 64-bit page-table slot: a packed physical address plus flags.

use vstd::prelude::*;

use crate::addr::{PhysicalAddress, MAX_PHYSICAL_ADDRESS};
use crate::flags::{EntryFlags, ALL_FLAGS, HUGE_PAGE, PRESENT};

verus! {

/// Bits 12..=51 of an entry hold the 4 KiB-aligned physical address.
pub const ADDRESS_MASK: u64 = 0x000f_ffff_ffff_f000;

/// One page-table entry. An entry is either all-zero (unused) or present;
/// `set` forces the present bit on for every non-empty write.
#[derive(Clone, Copy, PartialEq, Eq, Structural, Debug)]
pub struct Entry {
    bits: u64,
}

impl View for Entry {
    type V = u64;

    closed spec fn view(&self) -> u64 {
        self.bits
    }
}

impl Entry {
    /// Whether the present bit is set.
    pub open spec fn is_present(self) -> bool {
        self@ & PRESENT == PRESENT
    }

    /// Whether the huge-page bit is set.
    pub open spec fn is_huge(self) -> bool {
        self@ & HUGE_PAGE == HUGE_PAGE
    }

    /// The physical address packed into the entry.
    pub open spec fn spec_addr(self) -> u64 {
        self@ & ADDRESS_MASK
    }

    /// The defined flag bits of the entry.
    pub open spec fn spec_flags(self) -> u64 {
        self@ & ALL_FLAGS
    }

    /// An entry is well formed when it is all-zero or present.
    pub open spec fn wf(self) -> bool {
        self@ == 0 || self.is_present()
    }

    /// The empty (unused) entry.
    pub fn unused() -> (r: Entry)
        ensures
            r@ == 0,
    {
        Entry { bits: 0 }
    }

    /// Whether the entry is the unused sentinel.
    pub fn is_unused(&self) -> (r: bool)
        ensures
            r == (self@ == 0),
    {
        self.bits == 0
    }

    /// Whether the entry is present, as an executable check.
    pub fn is_present_bit(&self) -> (r: bool)
        ensures
            r == self.is_present(),
    {
        self.bits & PRESENT == PRESENT
    }

    /// Whether the entry carries the huge-page bit, as an executable check.
    pub fn is_huge_bit(&self) -> (r: bool)
        ensures
            r == self.is_huge(),
    {
        self.bits & HUGE_PAGE == HUGE_PAGE
    }

    /// The defined flag bits of the entry.
    pub fn flags(&self) -> (r: EntryFlags)
        ensures
            r@ == self.spec_flags(),
    {
        EntryFlags::from_bits_truncate(self.bits)
    }

    /// The raw physical-address field of the entry, meaningful only when the
    /// entry is present.
    pub fn address_bits(&self) -> (r: u64)
        ensures
            r == self.spec_addr(),
    {
        self.bits & ADDRESS_MASK
    }

    /// The physical address held by the entry, or nothing if the entry is not
    /// present. "Has a slot" and "is usable" stay distinct this way.
    pub fn address(&self) -> (r: Option<PhysicalAddress>)
        ensures
            match r {
                Some(p) => self.is_present() && p@ == self.spec_addr(),
                None => !self.is_present(),
            },
    {
        if self.bits & PRESENT == PRESENT {
            proof {
                lemma_address_field_in_range(self.bits);
            }
            Some(PhysicalAddress::new_unchecked(self.bits & ADDRESS_MASK))
        } else {
            None
        }
    }

    /// Write the entry: `None` clears it to the unused sentinel; an address
    /// and flags are packed together with the present bit forced on.
    pub fn set(&mut self, entry: Option<(PhysicalAddress, EntryFlags)>)
        ensures
            match entry {
                Some((address, flags)) => final(self)@ == (address@ & ADDRESS_MASK) | flags@
                    | PRESENT,
                None => final(self)@ == 0,
            },
    {
        match entry {
            Some((address, flags)) => {
                self.bits = (address.raw() & ADDRESS_MASK) | flags.bits() | PRESENT;
            },
            None => {
                self.bits = 0;
            },
        }
    }
}

/// The all-zero entry decodes as absent: no present bit, no huge bit, and a
/// zero address field.
pub proof fn lemma_zero_entry()
    ensures
        0u64 & PRESENT == 0,
        0u64 & HUGE_PAGE == 0,
        0u64 & ADDRESS_MASK == 0,
        0u64 & ALL_FLAGS == 0,
{
    assert(0u64 & 0x1 == 0 && 0u64 & 0x80 == 0 && 0u64 & 0x000f_ffff_ffff_f000 == 0 && 0u64
        & 0x8000_0000_0000_01ff == 0) by (bit_vector);
}

/// The packed address field is 4 KiB aligned and below `2^52`.
pub proof fn lemma_address_field_in_range(bits: u64)
    ensures
        bits & ADDRESS_MASK < MAX_PHYSICAL_ADDRESS,
        (bits & ADDRESS_MASK) % 0x1000 == 0,
{
    assert(bits & 0x000f_ffff_ffff_f000 < 0x0010_0000_0000_0000 && (bits & 0x000f_ffff_ffff_f000)
        % 0x1000 == 0) by (bit_vector);
}

/// How a packed entry word decodes, for an aligned in-range address and a
/// flag set clear of the address field.
pub proof fn lemma_packed_entry(address: u64, flags: u64)
    requires
        address % 0x1000 == 0,
        address < MAX_PHYSICAL_ADDRESS,
        flags & ADDRESS_MASK == 0,
    ensures
        ((address & ADDRESS_MASK) | flags | PRESENT) & PRESENT == PRESENT,
        ((address & ADDRESS_MASK) | flags | PRESENT) & ADDRESS_MASK == address,
        ((address & ADDRESS_MASK) | flags | PRESENT) & HUGE_PAGE == flags & HUGE_PAGE,
        address & ADDRESS_MASK == address,
{
    assert((address % 0x1000 == 0 && address < 0x0010_0000_0000_0000 && flags
        & 0x000f_ffff_ffff_f000 == 0) ==> {
        &&& ((address & 0x000f_ffff_ffff_f000) | flags | 1u64) & 1u64 == 1u64
        &&& ((address & 0x000f_ffff_ffff_f000) | flags | 1u64) & 0x000f_ffff_ffff_f000 == address
        &&& ((address & 0x000f_ffff_ffff_f000) | flags | 1u64) & 0x80u64 == flags & 0x80u64
        &&& address & 0x000f_ffff_ffff_f000 == address
    }) by (bit_vector);
}

} // verus!
