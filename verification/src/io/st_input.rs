//! An entry of the segment table.

use crate::constants::{
    MAX_FRAME_OFFSET, MAX_SEGMENT_OFFSET, MAX_SEGMENT_SIZE, MIN_FRAME_OFFSET,
    MIN_POSITIVE_PAGE_OFFSET,
};
use crate::error::{VMError, VMResult};
use crate::io::data::decimal::decimal_value;
use crate::io::data::frame_offset::{is_frame_offset, FrameOffset};
use crate::io::data::segment_offset::{is_segment_offset, SegmentOffset};
use crate::io::data::segment_size::{is_segment_size, SegmentSize};
use crate::io::data::{frame_offset, segment_offset, segment_size};
use vstd::prelude::*;

verus! {

/// One segment: its number, its size in words, and where its page table is.
#[derive(Debug, PartialEq, Eq)]
pub struct STInput {
    pub segment: segment_offset::Value,
    pub size: segment_size::Value,
    pub frame: frame_offset::Value,
}

/// What the three texts of a segment's entry amount to. The texts are read in
/// the order segment, size, location, and the first that fails decides the
/// error.
pub open spec fn st_input_of(segment: Seq<char>, size: Seq<char>, frame: Seq<char>) -> VMResult<
    STInput,
> {
    match (decimal_value(segment, false), decimal_value(size, false), decimal_value(frame, true)) {
        (Some(s), Some(z), Some(f)) if is_segment_offset(s) && is_segment_size(z)
            && is_frame_offset(f) => Ok(
            STInput { segment: s as u16, size: z as u32, frame: f as i16 },
        ),
        (Some(s), Some(z), _) if is_segment_offset(s) && is_segment_size(z) => Err(
            VMError::InvalidFrame,
        ),
        (Some(s), _, _) if is_segment_offset(s) => Err(VMError::InvalidSegmentSize),
        _ => Err(VMError::InvalidSegment),
    }
}

impl STInput {
    /// Whether each of the three numbers lies within its bounds.
    pub open spec fn wf(self) -> bool {
        &&& is_segment_offset(self.segment as int)
        &&& is_segment_size(self.size as int)
        &&& is_frame_offset(self.frame as int)
    }

    /// Reads an entry from the decimal texts of its three numbers.
    ///
    /// Succeeds exactly when each text writes a number within its bounds. The
    /// error is that of the first text that does not: `InvalidSegment`,
    /// `InvalidSegmentSize` or `InvalidFrame`.
    pub fn new(segment: &str, size: &str, frame: &str) -> (result: VMResult<Self>)
        ensures
            result == st_input_of(segment@, size@, frame@),
            result matches Ok(entry) ==> entry.wf(),
    {
        let segment: u16 = match SegmentOffset::new(segment) {
            Ok(offset) => offset.value(),
            Err(e) => { return Err(e); },
        };
        let size: u32 = match SegmentSize::new(size) {
            Ok(size) => size.value(),
            Err(e) => { return Err(e); },
        };
        let frame: i16 = match FrameOffset::new(frame) {
            Ok(offset) => offset.value(),
            Err(e) => { return Err(e); },
        };
        Ok(Self { segment, size, frame })
    }

    /// Tells whether each of the three numbers lies within its bounds.
    pub fn is_valid(&self) -> (valid: bool)
        ensures
            valid == self.wf(),
    {
        self.segment <= MAX_SEGMENT_OFFSET && self.size <= MAX_SEGMENT_SIZE && MIN_FRAME_OFFSET
            <= self.frame && self.frame <= MAX_FRAME_OFFSET && !(0 < self.frame && self.frame
            < MIN_POSITIVE_PAGE_OFFSET)
    }
}

} // verus!
