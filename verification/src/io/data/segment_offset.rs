//! A segment number.

use crate::constants::MAX_SEGMENT_OFFSET;
use crate::error::{VMError, VMResult};
use crate::io::data::decimal::{decimal_value, read_decimal};
use vstd::prelude::*;

verus! {

pub type Value = u16;

/// Whether `v` numbers a segment.
pub open spec fn is_segment_offset(v: int) -> bool {
    0 <= v <= MAX_SEGMENT_OFFSET
}

/// A segment number that has passed the bounds of [`is_segment_offset`].
#[derive(Debug, PartialEq, Eq)]
pub struct SegmentOffset(Value);

impl SegmentOffset {
    #[verifier::type_invariant]
    spec fn in_bounds(self) -> bool {
        is_segment_offset(self.0 as int)
    }

    /// The segment number that `self` holds.
    pub closed spec fn spec_value(self) -> Value {
        self.0
    }

    /// Reads a segment number from unsigned decimal text.
    ///
    /// Succeeds exactly when `input` writes a number that is a segment
    /// number, and then holds that number. Any other text is an
    /// `InvalidSegment`.
    pub fn new(input: &str) -> (result: VMResult<Self>)
        ensures
            result is Ok <==> (decimal_value(input@, false) matches Some(v) && is_segment_offset(
                v,
            )),
            result matches Ok(offset) ==> decimal_value(input@, false) == Some(
                offset.spec_value() as int,
            ),
            result matches Err(e) ==> e == VMError::InvalidSegment,
    {
        match read_decimal(input, false, MAX_SEGMENT_OFFSET as u32) {
            Some(number) => Ok(Self(number as u16)),
            None => Err(VMError::InvalidSegment),
        }
    }

    /// The segment number, which always satisfies [`is_segment_offset`].
    pub fn value(&self) -> (v: Value)
        ensures
            v == self.spec_value(),
            is_segment_offset(v as int),
    {
        proof {
            use_type_invariant(self);
        }
        self.0
    }
}

} // verus!
