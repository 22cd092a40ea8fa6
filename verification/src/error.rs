use vstd::prelude::*;

verus! {

/// What can go wrong while reading an entry or translating an address.
#[derive(Debug, PartialEq, Eq, Clone, Copy, Structural)]
pub enum VMError {
    /// A page had to be brought in and no frame was free.
    MemoryFull,
    /// A segment number is no decimal number in range.
    InvalidSegment,
    /// A segment size is no decimal number in range.
    InvalidSegmentSize,
    /// A location is no decimal number in range.
    InvalidFrame,
    /// A page number is no decimal number in range.
    InvalidPage,
    /// A raw address has bits set above the segment number.
    VirtualAddressLeadingBits,
    /// An address lies beyond the size of its segment.
    VirtualAddressOutOfBounds,
    /// A segment or a page was never given a location.
    MemoryNotInitialized,
}

pub type VMResult<T> = Result<T, VMError>;

} // verus!
