//! Plain physical-frame handles identified by frame number, with an
//! inclusive iteration helper and the allocator interface built on them.

use vstd::prelude::*;

verus! {

/// The smallest page size in bytes.
pub const PAGE_SIZE: usize = 4096;

/// A physical frame identified by its index in physical memory.
#[derive(PartialEq, Eq, Structural, PartialOrd, Ord, Debug, Hash)]
pub struct Frame {
    number: usize,
}

impl Frame {
    /// The frame's index.
    pub closed spec fn spec_number(self) -> usize {
        self.number
    }

    /// The frame holding the given physical address.
    pub fn get_containing_frame(address: usize) -> (r: Frame)
        ensures
            r.spec_number() == address / PAGE_SIZE,
    {
        Frame { number: address / PAGE_SIZE }
    }

    /// The physical address at which the frame starts.
    pub fn get_start_address(&self) -> (r: usize)
        requires
            self.spec_number() * PAGE_SIZE <= usize::MAX,
        ensures
            r == self.spec_number() * PAGE_SIZE,
    {
        self.number * PAGE_SIZE
    }

    /// A copy of the handle.
    pub fn clone(&self) -> (r: Frame)
        ensures
            r == *self,
    {
        Frame { number: self.number }
    }

    /// The frames from `start` to `end`, both ends taken.
    pub fn range_inclusive(start: Frame, end: Frame) -> (r: FrameIter)
        ensures
            r.start == start,
            r.end == end,
    {
        FrameIter { start, end }
    }
}

/// A walk over an inclusive range of frames.
pub struct FrameIter {
    /// The next frame the walk yields.
    pub start: Frame,
    /// The last frame the walk yields.
    pub end: Frame,
}

impl FrameIter {
    /// The next frame of the range, or nothing once the range is spent.
    pub fn next(&mut self) -> (r: Option<Frame>)
        requires
            old(self).end.spec_number() < usize::MAX,
        ensures
            final(self).end == old(self).end,
            match r {
                Some(f) => {
                    &&& old(self).start.spec_number() <= old(self).end.spec_number()
                    &&& f == old(self).start
                    &&& final(self).start.spec_number() == old(self).start.spec_number() + 1
                },
                None => {
                    &&& old(self).start.spec_number() > old(self).end.spec_number()
                    &&& final(self).start == old(self).start
                },
            },
    {
        if self.start.number <= self.end.number {
            let frame = self.start.clone();
            self.start.number = self.start.number + 1;
            Some(frame)
        } else {
            None
        }
    }
}

/// The supplier and sink of frames for everything above this layer. An
/// implementor tracks the set of frame numbers it has handed out; a frame is
/// never handed out twice without coming back in between.
pub trait FrameAllocator {
    /// The numbers of every frame currently handed out.
    spec fn allocated(&self) -> Set<usize>;

    /// Hand out a free frame, or nothing when memory is exhausted.
    fn allocate_frame(&mut self) -> (r: Option<Frame>)
        ensures
            match r {
                Some(f) => !old(self).allocated().contains(f.spec_number())
                    && final(self).allocated() == old(self).allocated().insert(f.spec_number()),
                None => final(self).allocated() == old(self).allocated(),
            },
    ;

    /// Return a frame to the pool.
    fn deallocate_frame(&mut self, frame: Frame)
        ensures
            final(self).allocated() == old(self).allocated().remove(frame.spec_number()),
    ;
}

} // verus!
