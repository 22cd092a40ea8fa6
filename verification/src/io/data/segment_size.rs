//! The size of a segment, in words.

use crate::constants::MAX_SEGMENT_SIZE;
use crate::error::{VMError, VMResult};
use crate::io::data::decimal::{decimal_value, read_decimal};
use vstd::prelude::*;

verus! {

pub type Value = u32;

/// Whether `v` can be the size of a segment: no more than the words of the
/// frames that the segment table leaves to pages.
pub open spec fn is_segment_size(v: int) -> bool {
    0 <= v <= MAX_SEGMENT_SIZE
}

/// A segment size that has passed the bounds of [`is_segment_size`].
#[derive(Debug, PartialEq, Eq)]
pub struct SegmentSize(Value);

impl SegmentSize {
    #[verifier::type_invariant]
    spec fn in_bounds(self) -> bool {
        is_segment_size(self.0 as int)
    }

    /// The size that `self` holds.
    pub closed spec fn spec_value(self) -> Value {
        self.0
    }

    /// Reads a segment size from unsigned decimal text.
    ///
    /// Succeeds exactly when `input` writes a number that is a segment size,
    /// and then holds that number. Any other text is an `InvalidSegmentSize`.
    pub fn new(input: &str) -> (result: VMResult<Self>)
        ensures
            result is Ok <==> (decimal_value(input@, false) matches Some(v) && is_segment_size(v)),
            result matches Ok(size) ==> decimal_value(input@, false) == Some(
                size.spec_value() as int,
            ),
            result matches Err(e) ==> e == VMError::InvalidSegmentSize,
    {
        match read_decimal(input, false, MAX_SEGMENT_SIZE) {
            Some(number) => Ok(Self(number as u32)),
            None => Err(VMError::InvalidSegmentSize),
        }
    }

    /// The size, which always satisfies [`is_segment_size`].
    #[must_use]
    pub fn value(&self) -> (v: Value)
        ensures
            v == self.spec_value(),
            is_segment_size(v as int),
    {
        proof {
            use_type_invariant(self);
        }
        self.0
    }
}

} // verus!
