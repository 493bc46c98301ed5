//! A bump allocator over one region of fixed capacity.

pub mod layout;
pub mod region;
pub mod simple;

pub use layout::Layout;
pub use region::{Region, CAPACITY};
pub use simple::SimpleByteAllocator;
use vstd::prelude::*;

verus! {

/// Why an allocation was refused.
#[derive(Clone, Copy, Debug, PartialEq, Eq, Structural)]
pub enum AllocError {
    /// The region has too little room left for the request.
    NoMemory,
}

/// What an allocator operation returns.
pub type AllocResult<T = ()> = Result<T, AllocError>;

} // verus!
