//! Typed virtual and physical addresses.
//!
//! A `VirtualAddress` is always canonical: bits 48 to 63 equal bit 47. A
//! `PhysicalAddress` fits the 52-bit physical address space. Both wrap a raw
//! `u64` kept private so that every constructed value satisfies its invariant.

use vstd::prelude::*;

verus! {

/// First address above the canonical lower half: `2^47`.
pub const LOW_HALF_END: u64 = 0x0000_8000_0000_0000;

/// First address of the canonical upper half: `2^64 - 2^47`.
pub const HIGH_HALF_START: u64 = 0xffff_8000_0000_0000;

/// Exclusive bound of the physical address space: `2^52`.
pub const MAX_PHYSICAL_ADDRESS: u64 = 0x0010_0000_0000_0000;

/// An address is canonical when bits 48..=63 are copies of bit 47, which is
/// exactly membership in one of the two canonical halves.
pub open spec fn is_canonical(addr: u64) -> bool {
    addr < LOW_HALF_END || addr >= HIGH_HALF_START
}

/// Replicate bit 47 of `addr` into bits 48..=63, leaving bits 0..=47 alone.
pub open spec fn spec_canonicalise(addr: u64) -> u64 {
    if (addr >> 47) & 1 == 1 {
        (addr & 0x0000_ffff_ffff_ffff) | 0xffff_0000_0000_0000
    } else {
        addr & 0x0000_ffff_ffff_ffff
    }
}

/// `x` is a power of two.
pub open spec fn is_pow2(x: u64) -> bool {
    x != 0 && x & ((x - 1) as u64) == 0
}

/// Clear the low bits of `x` so it becomes a multiple of `align` (which must
/// be a power of two).
pub open spec fn spec_align_down(x: u64, align: u64) -> u64 {
    x & !((align - 1) as u64)
}

/// The value of `x` read as a two's-complement signed 64-bit quantity.
pub open spec fn as_signed(x: u64) -> int {
    if x < 0x8000_0000_0000_0000 {
        x as int
    } else {
        x as int - 0x1_0000_0000_0000_0000
    }
}

/// `x + delta` reduced into `[0, 2^64)`, the result of two's-complement
/// wrap-around addition of a signed offset.
pub open spec fn spec_wrap_add_signed(x: u64, delta: i64) -> u64 {
    let sum = x as int + delta as int;
    if sum < 0 {
        (sum + 0x1_0000_0000_0000_0000) as u64
    } else if sum >= 0x1_0000_0000_0000_0000 {
        (sum - 0x1_0000_0000_0000_0000) as u64
    } else {
        sum as u64
    }
}

/// Index into the top-level table: bits 39..=47.
pub open spec fn spec_p4_index(addr: u64) -> u64 {
    (addr >> 39) & 0x1ff
}

/// Index into a third-level table: bits 30..=38.
pub open spec fn spec_p3_index(addr: u64) -> u64 {
    (addr >> 30) & 0x1ff
}

/// Index into a second-level table: bits 21..=29.
pub open spec fn spec_p2_index(addr: u64) -> u64 {
    (addr >> 21) & 0x1ff
}

/// Index into a first-level table: bits 12..=20.
pub open spec fn spec_p1_index(addr: u64) -> u64 {
    (addr >> 12) & 0x1ff
}

/// Canonicalisation only touches bits 48..=63, so it is idempotent.
pub proof fn lemma_canonicalise_idempotent(addr: u64)
    ensures
        spec_canonicalise(spec_canonicalise(addr)) == spec_canonicalise(addr),
{
    assert(spec_canonicalise(spec_canonicalise(addr)) == spec_canonicalise(addr)) by (bit_vector);
}

/// Canonicalisation always yields a canonical address.
pub proof fn lemma_canonicalise_canonical(addr: u64)
    ensures
        is_canonical(spec_canonicalise(addr)),
{
    assert(
        spec_canonicalise(addr) < 0x0000_8000_0000_0000 || spec_canonicalise(addr)
            >= 0xffff_8000_0000_0000
    ) by (bit_vector);
}

/// A canonical address is a fixed point of canonicalisation.
pub proof fn lemma_canonicalise_fixes_canonical(addr: u64)
    requires
        is_canonical(addr),
    ensures
        spec_canonicalise(addr) == addr,
{
    assert(
        (addr < 0x0000_8000_0000_0000 || addr >= 0xffff_8000_0000_0000) ==> spec_canonicalise(addr)
            == addr
    ) by (bit_vector);
}

/// Aligning down to a 4 KiB boundary yields the containing page's base.
pub proof fn lemma_align_down_4k(x: u64)
    ensures
        spec_align_down(x, 0x1000) % 0x1000 == 0,
        spec_align_down(x, 0x1000) <= x,
        x - spec_align_down(x, 0x1000) < 0x1000,
        spec_align_down(x, 0x1000) == x - (x % 0x1000),
{
    assert((x & !0xfffu64) % 0x1000 == 0 && (x & !0xfffu64) <= x && x - (x & !0xfffu64) < 0x1000
        && (x & !0xfffu64) == x - (x % 0x1000)) by (bit_vector);
}

/// Aligning down to a 2 MiB boundary yields the containing block's base.
pub proof fn lemma_align_down_2m(x: u64)
    ensures
        spec_align_down(x, 0x20_0000) % 0x20_0000 == 0,
        spec_align_down(x, 0x20_0000) <= x,
        x - spec_align_down(x, 0x20_0000) < 0x20_0000,
        spec_align_down(x, 0x20_0000) == x - (x % 0x20_0000),
{
    assert((x & !0x1f_ffffu64) % 0x20_0000 == 0 && (x & !0x1f_ffffu64) <= x && x - (x
        & !0x1f_ffffu64) < 0x20_0000 && (x & !0x1f_ffffu64) == x - (x % 0x20_0000))
        by (bit_vector);
}

/// Below `2^47`, aligning down cannot leave the canonical lower half.
pub proof fn lemma_align_down_canonical_low(x: u64, align: u64)
    requires
        x < LOW_HALF_END,
    ensures
        spec_canonicalise(spec_align_down(x, align)) == spec_align_down(x, align),
{
    assert(
        x < 0x0000_8000_0000_0000 ==> spec_canonicalise(x & !((align - 1) as u64)) == (x & !((align
            - 1) as u64))
    ) by (bit_vector);
}

/// In the canonical upper half, aligning down with an alignment of at most
/// `2^47` stays in the upper half.
pub proof fn lemma_align_down_canonical_high(x: u64, align: u64)
    requires
        x >= HIGH_HALF_START,
        is_pow2(align),
        align <= LOW_HALF_END,
    ensures
        spec_canonicalise(spec_align_down(x, align)) == spec_align_down(x, align),
{
    assert(
        (x >= 0xffff_8000_0000_0000 && align != 0 && align & ((align - 1) as u64) == 0 && align
            <= 0x0000_8000_0000_0000) ==> spec_canonicalise(x & !((align - 1) as u64)) == (x
            & !((align - 1) as u64))
    ) by (bit_vector);
}

/// Every page-table index is below 512.
pub proof fn lemma_indices_in_range(addr: u64)
    ensures
        spec_p4_index(addr) < 512,
        spec_p3_index(addr) < 512,
        spec_p2_index(addr) < 512,
        spec_p1_index(addr) < 512,
{
    assert(
        (addr >> 39) & 0x1ff < 512 && (addr >> 30) & 0x1ff < 512 && (addr >> 21) & 0x1ff < 512 && (
        addr >> 12) & 0x1ff < 512
    ) by (bit_vector);
}

/// A canonical virtual address. Canonicality is required by the processor for
/// any address handed to the paging hardware.
#[derive(Clone, Copy, PartialEq, Eq, Structural, PartialOrd, Ord, Debug, Hash)]
pub struct VirtualAddress {
    addr: u64,
}

impl View for VirtualAddress {
    type V = u64;

    closed spec fn view(&self) -> u64 {
        self.addr
    }
}

impl VirtualAddress {
    /// The invariant carried by every constructed value.
    #[verifier::type_invariant]
    pub open spec fn canonical(self) -> bool {
        is_canonical(self@)
    }

    /// Make an address from a raw value, rejecting non-canonical input.
    pub fn new(address: u64) -> (r: Option<VirtualAddress>)
        ensures
            match r {
                Some(v) => is_canonical(address) && v@ == address,
                None => !is_canonical(address),
            },
    {
        if address < LOW_HALF_END || address >= HIGH_HALF_START {
            Some(VirtualAddress { addr: address })
        } else {
            None
        }
    }

    /// Make an address from a raw value the caller has already shown to be
    /// canonical.
    pub fn new_unchecked(address: u64) -> (r: VirtualAddress)
        requires
            is_canonical(address),
        ensures
            r@ == address,
    {
        VirtualAddress { addr: address }
    }

    /// Make an address from a raw value, replicating bit 47 upward if the
    /// value is not canonical yet.
    pub fn new_canonicalise(address: u64) -> (r: VirtualAddress)
        ensures
            r@ == spec_canonicalise(address),
    {
        proof {
            lemma_canonicalise_canonical(address);
        }
        if (address >> 47) & 1 == 1 {
            VirtualAddress { addr: (address & 0x0000_ffff_ffff_ffff) | 0xffff_0000_0000_0000 }
        } else {
            VirtualAddress { addr: address & 0x0000_ffff_ffff_ffff }
        }
    }

    /// Assemble an address from its four 9-bit table indices and its page
    /// offset, canonicalising the packed value.
    pub fn from_page_table_offsets(p4: u16, p3: u16, p2: u16, p1: u16, offset: u64) -> (r:
        VirtualAddress)
        ensures
            r@ == spec_canonicalise(
                ((p4 as u64) << 39) | ((p3 as u64) << 30) | ((p2 as u64) << 21) | ((p1 as u64)
                    << 12) | offset,
            ),
    {
        VirtualAddress::new_canonicalise(
            ((p4 as u64) << 39) | ((p3 as u64) << 30) | ((p2 as u64) << 21) | ((p1 as u64) << 12)
                | offset,
        )
    }

    /// The raw 64-bit value.
    pub fn raw(self) -> (r: u64)
        ensures
            r == self@,
    {
        self.addr
    }

    /// Move the address by a signed byte distance, with two's-complement
    /// wrap-around, canonicalising the result. The sum read as a signed
    /// quantity must not overflow.
    pub fn offset(&self, offset: i64) -> (r: VirtualAddress)
        requires
            i64::MIN <= as_signed(self@) + offset <= i64::MAX,
        ensures
            r@ == spec_canonicalise(spec_wrap_add_signed(self@, offset)),
    {
        let raw: u64 = self.addr.wrapping_add_signed(offset);
        VirtualAddress::new_canonicalise(raw)
    }

    /// Whether the address is a multiple of the 4 KiB page size.
    pub fn is_page_aligned(&self) -> (r: bool)
        ensures
            r == (self@ % 0x1000 == 0),
    {
        self.addr % 0x1000 == 0
    }

    /// Whether the address is a multiple of `alignment`.
    pub fn is_aligned_to(&self, alignment: u64) -> (r: bool)
        requires
            alignment > 0,
        ensures
            r == (self@ % alignment == 0),
    {
        self.addr % alignment == 0
    }

    /// The byte offset of the address inside its 4 KiB page.
    pub fn offset_into_page(&self) -> (r: u64)
        ensures
            r == self@ % 0x1000,
    {
        self.addr % 0x1000
    }

    /// The greatest address with the given alignment that is not above
    /// `self`. The alignment must be zero (no change) or a power of two.
    pub fn align_down(&self, align: u64) -> (r: VirtualAddress)
        requires
            align == 0 || is_pow2(align),
        ensures
            align == 0 ==> r@ == self@,
            align != 0 ==> r@ == spec_canonicalise(spec_align_down(self@, align)),
    {
        if align == 0 {
            *self
        } else {
            VirtualAddress::new_canonicalise(self.addr & !(align - 1))
        }
    }

    /// The least address with the given alignment that is not below `self`.
    /// The alignment must be a power of two and `self + align - 1` must stay
    /// canonical.
    pub fn align_up(&self, align: u64) -> (r: VirtualAddress)
        requires
            is_pow2(align),
            self@ + align - 1 <= u64::MAX,
            is_canonical((self@ + align - 1) as u64),
        ensures
            r@ == spec_canonicalise(spec_align_down((self@ + align - 1) as u64, align)),
    {
        let bumped: u64 = self.addr + (align - 1);
        match VirtualAddress::new(bumped) {
            Some(v) => v.align_down(align),
            None => {
                proof {
                    assert(false);
                }
                *self
            },
        }
    }

    /// Replicate bit 47 into bits 48..=63. A constructed address is already
    /// canonical, so this is the identity; it mirrors the raw-value rule
    /// applied by `new_canonicalise`.
    pub fn canonicalise(self) -> (r: VirtualAddress)
        ensures
            r@ == spec_canonicalise(self@),
    {
        proof {
            use_type_invariant(&self);
            lemma_canonicalise_fixes_canonical(self.addr);
        }
        self
    }
}

/// A physical address: at most 52 bits wide, the span of the physical address
/// field of a table entry. Physical addresses are never dereferenced here;
/// they are only stored, compared and translated to.
#[derive(Clone, Copy, PartialEq, Eq, Structural, PartialOrd, Ord, Debug, Hash)]
pub struct PhysicalAddress {
    addr: u64,
}

impl View for PhysicalAddress {
    type V = u64;

    closed spec fn view(&self) -> u64 {
        self.addr
    }
}

impl PhysicalAddress {
    /// The invariant carried by every constructed value.
    #[verifier::type_invariant]
    pub open spec fn in_range(self) -> bool {
        self@ < MAX_PHYSICAL_ADDRESS
    }

    /// Make a physical address, rejecting values beyond the 52-bit space.
    pub fn new(address: u64) -> (r: Option<PhysicalAddress>)
        ensures
            match r {
                Some(p) => address < MAX_PHYSICAL_ADDRESS && p@ == address,
                None => address >= MAX_PHYSICAL_ADDRESS,
            },
    {
        if address < MAX_PHYSICAL_ADDRESS {
            Some(PhysicalAddress { addr: address })
        } else {
            None
        }
    }

    /// Make a physical address from a value already shown to be in range.
    pub fn new_unchecked(address: u64) -> (r: PhysicalAddress)
        requires
            address < MAX_PHYSICAL_ADDRESS,
        ensures
            r@ == address,
    {
        PhysicalAddress { addr: address }
    }

    /// The raw 64-bit value.
    pub fn raw(self) -> (r: u64)
        ensures
            r == self@,
    {
        self.addr
    }

    /// Whether the address is a multiple of `alignment`.
    pub fn is_aligned_to(&self, alignment: u64) -> (r: bool)
        requires
            alignment > 0,
        ensures
            r == (self@ % alignment == 0),
    {
        self.addr % alignment == 0
    }
}

} // verus!
