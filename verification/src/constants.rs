use vstd::prelude::*;

verus! {

/// Bits of a virtual address that name the segment.
pub const SEGMENT_SIZE_BITS: usize = 9;

/// Bits of a virtual address that name the page within the segment.
pub const PAGE_SIZE_BITS: usize = 9;

/// Bits of a virtual address that name the word within the page.
pub const FRAME_SIZE_BITS: usize = 9;

/// Words in a page, in a frame and in a block of the backing store.
pub const PAGE_SIZE: usize = 512;

/// Frames of physical memory, and blocks of the backing store.
pub const PAGE_COUNT: usize = 1024;

/// Words of the segment table per segment. The table fills the first frames
/// of physical memory, as many frames as a segment has words in it.
pub const SEGMENT_WORD_COUNT: usize = 2;

/// Within a segment's entry, the word that holds the segment's size.
pub const SEGMENT_SIZE_OFFSET: usize = 0;

/// Within a segment's entry, the word that holds the page table's location.
pub const SEGMENT_PAGE_TABLE_OFFSET: usize = 1;

/// Words of physical memory.
pub const MEMORY_WORD_COUNT: usize = 524288;

/// The largest segment number.
pub const MAX_SEGMENT_OFFSET: u16 = 511;

/// The largest segment size: the words of the frames that the segment table
/// does not occupy.
pub const MAX_SEGMENT_SIZE: u32 = 523264;

/// The largest page number within a segment.
pub const MAX_PAGE_OFFSET: u16 = 511;

/// The smallest frame number that a page or a page table can occupy.
pub const MIN_POSITIVE_PAGE_OFFSET: i16 = 2;

/// The largest location: the last frame of physical memory.
pub const MAX_FRAME_OFFSET: i16 = 1023;

/// The smallest location: the last block of the backing store, negated.
pub const MIN_FRAME_OFFSET: i16 = -1023;

/// One more than the largest raw virtual address.
pub const VIRTUAL_ADDRESS_LIMIT: u32 = 0x800_0000;

} // verus!
