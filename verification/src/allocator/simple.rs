//! The allocator itself.

use super::layout::Layout;
use super::region::{Region, CAPACITY};
use super::{AllocError, AllocResult};
use vstd::prelude::*;

verus! {

/// A bump allocator over a region of `CAPACITY` bytes.
///
/// Allocations are handed out one behind the other. Freeing gives nothing
/// back until the last outstanding allocation is freed; the whole region is
/// then free again.
pub struct SimpleByteAllocator {
    // Offset of the first unused byte.
    ptr: usize,
    // When this goes from 1 to 0, `ptr` goes back to 0.
    num_allocations: usize,
}

impl View for SimpleByteAllocator {
    type V = Region;

    closed spec fn view(&self) -> Region {
        Region { cursor: self.ptr as nat, live_count: self.num_allocations as nat }
    }
}

impl SimpleByteAllocator {
    #[verifier::type_invariant]
    spec fn inv(&self) -> bool {
        self@.wf()
    }

    /// An allocator whose region is empty.
    pub fn new() -> (allocator: Self)
        ensures
            allocator@ == Region::empty(),
    {
        Self { ptr: 0, num_allocations: 0 }
    }

    /// Does nothing: the region is fixed from the start.
    pub fn init(&mut self, _start: usize, _size: usize)
        ensures
            final(self)@ == old(self)@,
    {
    }

    /// Accepts the memory and does nothing with it: the region does not
    /// grow.
    pub fn add_memory(&mut self, _start: usize, _size: usize) -> (result: AllocResult)
        ensures
            result is Ok,
            final(self)@ == old(self)@,
    {
        Ok(())
    }

    /// Allocates the rounded size of `layout` at the cursor and returns the
    /// offset of the allocation in the region, or fails with `NoMemory` and
    /// changes nothing if that many bytes are not left.
    ///
    /// The allocation is counted as outstanding, so the count must not yet
    /// be at the largest number that it can hold.
    pub fn allocate(&mut self, layout: Layout) -> (result: AllocResult<usize>)
        requires
            old(self)@.live_count < usize::MAX,
        ensures
            result == old(self)@.alloc_result(layout),
            final(self)@ == old(self)@.after_alloc(layout),
            final(self)@.wf(),
    {
        proof {
            use_type_invariant(&*self);
        }
        match layout.rounded_size_within(CAPACITY - self.ptr) {
            Some(size) => {
                let start = self.ptr;
                *self = Self { ptr: start + size, num_allocations: self.num_allocations + 1 };
                Ok(start)
            },
            None => Err(AllocError::NoMemory),
        }
    }

    /// Frees one allocation. Which one is not looked at: `_pos` and
    /// `_layout` are not checked against what was handed out. When the last
    /// outstanding allocation is freed, the whole region is free again. With
    /// nothing outstanding the call changes nothing.
    pub fn dealloc(&mut self, _pos: usize, _layout: Layout)
        ensures
            final(self)@ == old(self)@.after_dealloc(),
            final(self)@.wf(),
    {
        proof {
            use_type_invariant(&*self);
        }
        if self.num_allocations > 1 {
            self.num_allocations -= 1;
        } else {
            *self = Self { ptr: 0, num_allocations: 0 };
        }
    }

    /// The number of allocations that have not been freed.
    pub fn num_allocations(&self) -> (count: usize)
        ensures
            count == self@.live_count,
    {
        self.num_allocations
    }

    /// The capacity of the region.
    pub fn total_bytes(&self) -> (bytes: usize)
        ensures
            bytes == CAPACITY,
    {
        CAPACITY
    }

    /// The number of bytes below the cursor.
    pub fn used_bytes(&self) -> (bytes: usize)
        ensures
            bytes == self@.cursor,
            self@.wf(),
    {
        proof {
            use_type_invariant(self);
        }
        self.ptr
    }

    /// The number of bytes from the cursor to the end of the region.
    pub fn available_bytes(&self) -> (bytes: usize)
        ensures
            bytes == CAPACITY - self@.cursor,
            self@.wf(),
    {
        proof {
            use_type_invariant(self);
        }
        CAPACITY - self.ptr
    }
}

} // verus!
