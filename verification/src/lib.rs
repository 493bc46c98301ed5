//! Two primitives of a small kernel runtime.
//!
//! [`allocator`] holds a bump allocator over one region of fixed capacity:
//! allocations are handed out one behind the other, and the region is
//! reclaimed as a whole when the last of them is freed.
//!
//! [`scheduler`] holds a cooperative round-robin scheduler: a queue of the
//! tasks that are ready to run, served first in, first out, and a count of
//! timer ticks that tells when a task has used up its time slice.
//!
//! Neither uses the other.

pub mod allocator;
pub mod scheduler;
