//! An entry of a page table.

use crate::constants::{
    MAX_FRAME_OFFSET, MAX_PAGE_OFFSET, MAX_SEGMENT_OFFSET, MIN_FRAME_OFFSET,
    MIN_POSITIVE_PAGE_OFFSET,
};
use crate::error::{VMError, VMResult};
use crate::io::data::decimal::decimal_value;
use crate::io::data::frame_offset::{is_frame_offset, FrameOffset};
use crate::io::data::page_offset::{is_page_offset, PageOffset};
use crate::io::data::segment_offset::{is_segment_offset, SegmentOffset};
use crate::io::data::{frame_offset, page_offset, segment_offset};
use vstd::prelude::*;

verus! {

/// One page: its segment, its number within the segment, and where it is.
#[derive(Debug, PartialEq, Eq)]
pub struct PTInput {
    pub segment: segment_offset::Value,
    pub page: page_offset::Value,
    pub frame: frame_offset::Value,
}

/// What the three texts of a page's entry amount to. The texts are read in
/// the order segment, page, location, and the first that fails decides the
/// error.
pub open spec fn pt_input_of(segment: Seq<char>, page: Seq<char>, frame: Seq<char>) -> VMResult<
    PTInput,
> {
    match (decimal_value(segment, false), decimal_value(page, false), decimal_value(frame, true)) {
        (Some(s), Some(p), Some(f)) if is_segment_offset(s) && is_page_offset(p)
            && is_frame_offset(f) => Ok(
            PTInput { segment: s as u16, page: p as u16, frame: f as i16 },
        ),
        (Some(s), Some(p), _) if is_segment_offset(s) && is_page_offset(p) => Err(
            VMError::InvalidFrame,
        ),
        (Some(s), _, _) if is_segment_offset(s) => Err(VMError::InvalidPage),
        _ => Err(VMError::InvalidSegment),
    }
}

impl PTInput {
    /// Whether each of the three numbers lies within its bounds.
    pub open spec fn wf(self) -> bool {
        &&& is_segment_offset(self.segment as int)
        &&& is_page_offset(self.page as int)
        &&& is_frame_offset(self.frame as int)
    }

    /// Reads an entry from the decimal texts of its three numbers.
    ///
    /// Succeeds exactly when each text writes a number within its bounds. The
    /// error is that of the first text that does not: `InvalidSegment`,
    /// `InvalidPage` or `InvalidFrame`.
    pub fn new(segment: &str, page: &str, frame: &str) -> (result: VMResult<Self>)
        ensures
            result == pt_input_of(segment@, page@, frame@),
            result matches Ok(entry) ==> entry.wf(),
    {
        let segment: u16 = match SegmentOffset::new(segment) {
            Ok(offset) => offset.value(),
            Err(e) => { return Err(e); },
        };
        let page: u16 = match PageOffset::new(page) {
            Ok(offset) => offset.value(),
            Err(e) => { return Err(e); },
        };
        let frame: i16 = match FrameOffset::new(frame) {
            Ok(offset) => offset.value(),
            Err(e) => { return Err(e); },
        };
        Ok(Self { segment, page, frame })
    }

    /// Tells whether each of the three numbers lies within its bounds.
    pub fn is_valid(&self) -> (valid: bool)
        ensures
            valid == self.wf(),
    {
        self.segment <= MAX_SEGMENT_OFFSET && self.page <= MAX_PAGE_OFFSET && MIN_FRAME_OFFSET
            <= self.frame && self.frame <= MAX_FRAME_OFFSET && !(0 < self.frame && self.frame
            < MIN_POSITIVE_PAGE_OFFSET)
    }
}

} // verus!
