//! Entry flag bits and the portable permission set they are derived from.

use vstd::prelude::*;

verus! {

/// The entry maps something (always forced on for a non-empty entry).
pub const PRESENT: u64 = 0x1;

/// Writes are allowed through this entry.
pub const WRITABLE: u64 = 0x2;

/// User-mode accesses are allowed through this entry.
pub const USER_ACCESSIBLE: u64 = 0x4;

/// Writes go straight to memory.
pub const WRITE_THROUGH: u64 = 0x8;

/// Reads bypass the cache.
pub const NO_CACHE: u64 = 0x10;

/// The processor has read through this entry.
pub const ACCESSED: u64 = 0x20;

/// The processor has written through this entry.
pub const DIRTY: u64 = 0x40;

/// The entry is a leaf above the lowest level, covering 2 MiB or 1 GiB.
pub const HUGE_PAGE: u64 = 0x80;

/// The translation survives an address-space switch.
pub const GLOBAL: u64 = 0x100;

/// Instruction fetches are forbidden through this entry (inverted sense of
/// "executable").
pub const NO_EXECUTE: u64 = 0x8000_0000_0000_0000;

/// The flag set installed on every entry that points at a child table rather
/// than at a mapped frame. It is the most permissive set, so that effective
/// access control is decided by the terminal entry alone.
pub const NON_TERMINAL_FLAGS: u64 = 0x7;

/// Every defined flag bit.
pub const ALL_FLAGS: u64 = 0x8000_0000_0000_01ff;

/// A portable permission and cacheability request, independent of the
/// hardware bit layout.
#[derive(Clone, Copy, PartialEq, Eq, Structural, Debug)]
pub struct Flags {
    pub writable: bool,
    pub executable: bool,
    pub user_accessible: bool,
    pub cached: bool,
}

/// The hardware bit pattern a permission request turns into: present is
/// unconditional, writable / user-accessible / uncached map directly, and a
/// *non*-executable request sets the no-execute bit.
pub open spec fn spec_flags_to_bits(flags: Flags) -> u64 {
    PRESENT | (if flags.writable {
        WRITABLE
    } else {
        0
    }) | (if flags.executable {
        0
    } else {
        NO_EXECUTE
    }) | (if flags.user_accessible {
        USER_ACCESSIBLE
    } else {
        0
    }) | (if flags.cached {
        0
    } else {
        NO_CACHE
    })
}

/// The flag bits of one table entry.
#[derive(Clone, Copy, PartialEq, Eq, Structural, Debug)]
pub struct EntryFlags {
    bits: u64,
}

impl View for EntryFlags {
    type V = u64;

    closed spec fn view(&self) -> u64 {
        self.bits
    }
}

impl EntryFlags {
    /// No flags at all.
    pub fn empty() -> (r: EntryFlags)
        ensures
            r@ == 0,
    {
        EntryFlags { bits: 0 }
    }

    /// Keep only the defined flag bits of a raw entry word.
    pub fn from_bits_truncate(bits: u64) -> (r: EntryFlags)
        ensures
            r@ == bits & ALL_FLAGS,
    {
        EntryFlags { bits: bits & ALL_FLAGS }
    }

    /// A flag set holding exactly the given bits.
    pub fn from_bits_raw(bits: u64) -> (r: EntryFlags)
        ensures
            r@ == bits,
    {
        EntryFlags { bits }
    }

    /// The raw bits.
    pub fn bits(&self) -> (r: u64)
        ensures
            r == self@,
    {
        self.bits
    }

    /// Whether every bit of `other` is set in `self`.
    pub fn contains(&self, other: EntryFlags) -> (r: bool)
        ensures
            r == (self@ & other@ == other@),
    {
        self.bits & other.bits == other.bits
    }

    /// The bitwise union of two flag sets.
    pub fn union(self, other: EntryFlags) -> (r: EntryFlags)
        ensures
            r@ == self@ | other@,
    {
        EntryFlags { bits: self.bits | other.bits }
    }

    /// Turn a portable permission request into hardware flag bits.
    pub fn from_flags(flags: Flags) -> (r: EntryFlags)
        ensures
            r@ == spec_flags_to_bits(flags),
    {
        let bits: u64 = PRESENT | (if flags.writable {
            WRITABLE
        } else {
            0
        }) | (if flags.executable {
            0
        } else {
            NO_EXECUTE
        }) | (if flags.user_accessible {
            USER_ACCESSIBLE
        } else {
            0
        }) | (if flags.cached {
            0
        } else {
            NO_CACHE
        });
        EntryFlags { bits }
    }
}

impl Default for EntryFlags {
    /// The default entry flag set: just present.
    fn default() -> (r: EntryFlags)
        ensures
            r@ == PRESENT,
    {
        EntryFlags { bits: PRESENT }
    }
}

/// The bit pattern of a permission request always has the present bit, never
/// the huge-page bit, and stays clear of the physical-address field.
pub proof fn lemma_flags_to_bits_shape(flags: Flags)
    ensures
        spec_flags_to_bits(flags) & PRESENT == PRESENT,
        spec_flags_to_bits(flags) & HUGE_PAGE == 0,
        spec_flags_to_bits(flags) & 0x000f_ffff_ffff_f000 == 0,
        spec_flags_to_bits(flags) & WRITABLE == (if flags.writable {
            WRITABLE
        } else {
            0
        }),
        spec_flags_to_bits(flags) & NO_EXECUTE == (if flags.executable {
            0
        } else {
            NO_EXECUTE
        }),
{
    let w = flags.writable;
    let e = flags.executable;
    let u = flags.user_accessible;
    let c = flags.cached;
    let bits = spec_flags_to_bits(flags);
    assert(bits == 1u64 | (if w {
        2u64
    } else {
        0u64
    }) | (if e {
        0u64
    } else {
        0x8000_0000_0000_0000u64
    }) | (if u {
        4u64
    } else {
        0u64
    }) | (if c {
        0u64
    } else {
        0x10u64
    }));
    assert({
        let b = 1u64 | (if w {
            2u64
        } else {
            0u64
        }) | (if e {
            0u64
        } else {
            0x8000_0000_0000_0000u64
        }) | (if u {
            4u64
        } else {
            0u64
        }) | (if c {
            0u64
        } else {
            0x10u64
        });
        b & 1 == 1 && b & 0x80 == 0 && b & 0x000f_ffff_ffff_f000 == 0 && b & 2 == (if w {
            2u64
        } else {
            0u64
        }) && b & 0x8000_0000_0000_0000 == (if e {
            0u64
        } else {
            0x8000_0000_0000_0000u64
        })
    }) by (bit_vector);
}

} // verus!
