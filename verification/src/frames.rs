//! Size-tagged frame and page handles, the paging error type, and the
//! frame-allocator interface the mapping algorithms draw table frames from.

use vstd::prelude::*;

use crate::addr::{PhysicalAddress, VirtualAddress, MAX_PHYSICAL_ADDRESS};

verus! {

/// 4 KiB, the smallest page size.
pub const SIZE_4KIB: u64 = 0x1000;

/// 2 MiB, the size mapped by one second-level leaf entry.
pub const SIZE_2MIB: u64 = 0x20_0000;

/// 1 GiB, the size mapped by one third-level leaf entry.
pub const SIZE_1GIB: u64 = 0x4000_0000;

/// Why a paging operation failed.
#[derive(Clone, Copy, PartialEq, Eq, Structural, Debug)]
pub enum PagingError {
    /// The leaf slot is occupied, or the walk hit a region already claimed by
    /// an existing mapping.
    AlreadyMapped,
    /// The requested page size has no implemented mapping path.
    UnsupportedPageSize,
}

/// A page-size tag. The three implementors fix the leaf granularities of the
/// 4-level tree; `size_properties` pins every implementor to one of them.
pub trait FrameSize: Sized {
    /// The size in bytes, as a specification value.
    spec fn spec_size() -> u64;

    /// The size in bytes.
    fn size() -> (r: u64)
        ensures
            r == Self::spec_size(),
    ;

    /// Every size tag is one of the three supported granularities.
    proof fn size_properties()
        ensures
            Self::spec_size() == SIZE_4KIB || Self::spec_size() == SIZE_2MIB
                || Self::spec_size() == SIZE_1GIB,
    ;
}

/// The 4 KiB size tag.
#[derive(Clone, Copy, PartialEq, Eq, Structural, Debug)]
pub struct Size4KiB;

impl FrameSize for Size4KiB {
    open spec fn spec_size() -> u64 {
        SIZE_4KIB
    }

    fn size() -> u64 {
        SIZE_4KIB
    }

    proof fn size_properties() {
    }
}

/// The 2 MiB size tag.
#[derive(Clone, Copy, PartialEq, Eq, Structural, Debug)]
pub struct Size2MiB;

impl FrameSize for Size2MiB {
    open spec fn spec_size() -> u64 {
        SIZE_2MIB
    }

    fn size() -> u64 {
        SIZE_2MIB
    }

    proof fn size_properties() {
    }
}

/// The 1 GiB size tag.
#[derive(Clone, Copy, PartialEq, Eq, Structural, Debug)]
pub struct Size1GiB;

impl FrameSize for Size1GiB {
    open spec fn spec_size() -> u64 {
        SIZE_1GIB
    }

    fn size() -> u64 {
        SIZE_1GIB
    }

    proof fn size_properties() {
    }
}

/// A physical frame of size `S`, always aligned to `S`.
#[derive(PartialEq, Eq, Debug)]
pub struct Frame<S: FrameSize> {
    start: PhysicalAddress,
    _size: core::marker::PhantomData<S>,
}

impl<S: FrameSize> Clone for Frame<S> {
    fn clone(&self) -> (r: Self)
        ensures
            r == *self,
    {
        Frame { start: self.start, _size: core::marker::PhantomData }
    }
}

impl<S: FrameSize> Copy for Frame<S> {

}

impl<S: FrameSize> Frame<S> {
    /// The base physical address, as a specification value.
    pub closed spec fn spec_start(self) -> u64 {
        self.start@
    }

    /// A frame is well formed when its base is aligned to its size.
    pub open spec fn wf(self) -> bool {
        self.spec_start() % S::spec_size() == 0
    }

    /// The frame whose base is the given (suitably aligned) address.
    pub fn starts_with(address: PhysicalAddress) -> (r: Frame<S>)
        requires
            address@ % S::spec_size() == 0,
        ensures
            r.spec_start() == address@,
            r.wf(),
    {
        Frame { start: address, _size: core::marker::PhantomData }
    }

    /// The base physical address.
    pub fn start(&self) -> (r: PhysicalAddress)
        ensures
            r@ == self.spec_start(),
    {
        self.start
    }
}

/// A virtual page of size `S`, always aligned to `S` and canonical.
#[derive(PartialEq, Eq, Debug)]
pub struct Page<S: FrameSize> {
    start: VirtualAddress,
    _size: core::marker::PhantomData<S>,
}

impl<S: FrameSize> Clone for Page<S> {
    fn clone(&self) -> (r: Self)
        ensures
            r == *self,
    {
        Page { start: self.start, _size: core::marker::PhantomData }
    }
}

impl<S: FrameSize> Copy for Page<S> {

}

impl<S: FrameSize> Page<S> {
    /// The base virtual address, as a specification value.
    pub closed spec fn spec_start(self) -> u64 {
        self.start@
    }

    /// A page is well formed when its base is aligned to its size.
    pub open spec fn wf(self) -> bool {
        self.spec_start() % S::spec_size() == 0
    }

    /// The page whose base is the given (suitably aligned) address.
    pub fn starts_with(address: VirtualAddress) -> (r: Page<S>)
        requires
            address@ % S::spec_size() == 0,
        ensures
            r.spec_start() == address@,
            r.wf(),
    {
        Page { start: address, _size: core::marker::PhantomData }
    }

    /// The base virtual address.
    pub fn start(&self) -> (r: VirtualAddress)
        ensures
            r@ == self.spec_start(),
    {
        self.start
    }
}

/// The supplier of zeroed 4 KiB physical frames for new page tables. The
/// paging layer treats allocation as infallible; `remaining` bounds how many
/// more frames a caller may draw, and `allocated` is the set of frame bases
/// handed out so far, which allocation never repeats.
pub trait FrameAllocator: Sized {
    /// The allocator's internal consistency condition.
    spec fn inv(&self) -> bool;

    /// Every frame base handed out so far.
    spec fn allocated(&self) -> Set<u64>;

    /// How many more frames can still be handed out.
    spec fn remaining(&self) -> nat;

    /// Hand out a frame never handed out before.
    fn allocate(&mut self) -> (f: Frame<Size4KiB>)
        requires
            old(self).inv(),
            old(self).remaining() >= 1,
        ensures
            final(self).inv(),
            f.wf(),
            !old(self).allocated().contains(f.spec_start()),
            final(self).allocated() == old(self).allocated().insert(f.spec_start()),
            final(self).remaining() == old(self).remaining() - 1,
    ;

    /// Return a frame to the pool.
    fn deallocate(&mut self, frame: Frame<Size4KiB>)
        requires
            old(self).inv(),
        ensures
            final(self).inv(),
            final(self).allocated() == old(self).allocated().remove(frame.spec_start()),
            final(self).remaining() >= old(self).remaining(),
    ;
}

/// A bump allocator over the physical address space: frames are handed out
/// at ever-increasing addresses and never reused.
pub struct BumpAllocator {
    next: u64,
    handed_out: Ghost<Set<u64>>,
}

impl BumpAllocator {
    /// The next frame base to be handed out.
    pub closed spec fn spec_next(self) -> u64 {
        self.next
    }

    /// A bump allocator starting at the given 4 KiB-aligned base.
    pub fn new(start: u64) -> (r: BumpAllocator)
        requires
            start % 0x1000 == 0,
            start < MAX_PHYSICAL_ADDRESS,
        ensures
            r.inv(),
            r.allocated() == Set::<u64>::empty(),
            r.spec_next() == start,
            r.remaining() == ((MAX_PHYSICAL_ADDRESS - start) / 0x1000) as nat,
    {
        BumpAllocator { next: start, handed_out: Ghost(Set::empty()) }
    }

    /// The next frame base to be handed out, observable so a caller can see
    /// whether any allocation happened.
    pub fn next_base(&self) -> (r: u64)
        ensures
            r == self.spec_next(),
    {
        self.next
    }
}

impl FrameAllocator for BumpAllocator {
    closed spec fn inv(&self) -> bool {
        &&& self.next % 0x1000 == 0
        &&& self.next <= MAX_PHYSICAL_ADDRESS
        &&& forall|a: u64| self.handed_out@.contains(a) ==> a < self.next
        &&& self.handed_out@.finite()
    }

    closed spec fn allocated(&self) -> Set<u64> {
        self.handed_out@
    }

    closed spec fn remaining(&self) -> nat {
        ((MAX_PHYSICAL_ADDRESS - self.next) / 0x1000) as nat
    }

    fn allocate(&mut self) -> (f: Frame<Size4KiB>) {
        proof {
            assert(MAX_PHYSICAL_ADDRESS - self.next >= 0x1000) by (nonlinear_arith)
                requires
                    (MAX_PHYSICAL_ADDRESS - self.next) / 0x1000 >= 1,
                    self.next <= MAX_PHYSICAL_ADDRESS,
            ;
        }
        let base: u64 = self.next;
        let frame = Frame::<Size4KiB>::starts_with(PhysicalAddress::new_unchecked(base));
        self.next = self.next + 0x1000;
        proof {
            self.handed_out@ = self.handed_out@.insert(base);
            assert((MAX_PHYSICAL_ADDRESS - (base + 0x1000)) / 0x1000 == (MAX_PHYSICAL_ADDRESS
                - base) / 0x1000 - 1) by (nonlinear_arith)
                requires
                    base + 0x1000 <= MAX_PHYSICAL_ADDRESS,
            ;
        }
        frame
    }

    fn deallocate(&mut self, frame: Frame<Size4KiB>) {
        proof {
            self.handed_out@ = self.handed_out@.remove(frame.spec_start());
        }
    }
}

} // verus!
