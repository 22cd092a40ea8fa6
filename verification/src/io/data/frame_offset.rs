//! A location: where a page table or a page is to be found.

use crate::constants::{MAX_FRAME_OFFSET, MIN_FRAME_OFFSET, MIN_POSITIVE_PAGE_OFFSET};
use crate::error::{VMError, VMResult};
use crate::io::data::decimal::{decimal_value, read_decimal};
use vstd::prelude::*;

verus! {

pub type Value = i16;

/// Whether `v` can stand as a location. A negative location is a block of the
/// backing store, negated. A positive one is a frame of physical memory, which
/// cannot be one of the frames that hold the segment table. Zero says that
/// there is no location yet.
pub open spec fn is_frame_offset(v: int) -> bool {
    MIN_FRAME_OFFSET <= v <= MAX_FRAME_OFFSET && !(0 < v < MIN_POSITIVE_PAGE_OFFSET)
}

/// A location that has passed the bounds of [`is_frame_offset`].
#[derive(Debug, PartialEq, Eq)]
pub struct FrameOffset(Value);

impl FrameOffset {
    #[verifier::type_invariant]
    spec fn in_bounds(self) -> bool {
        is_frame_offset(self.0 as int)
    }

    /// The location that `self` holds.
    pub closed spec fn spec_value(self) -> Value {
        self.0
    }

    /// Reads a location from signed decimal text.
    ///
    /// Succeeds exactly when `input` writes a number that is a location, and
    /// then holds that number. Any other text is an `InvalidFrame`.
    pub fn new(input: &str) -> (result: VMResult<Self>)
        ensures
            result is Ok <==> (decimal_value(input@, true) matches Some(v) && is_frame_offset(v)),
            result matches Ok(offset) ==> decimal_value(input@, true) == Some(
                offset.spec_value() as int,
            ),
            result matches Err(e) ==> e == VMError::InvalidFrame,
    {
        match read_decimal(input, true, MAX_FRAME_OFFSET as u32) {
            Some(number) => {
                if 0 < number && number < MIN_POSITIVE_PAGE_OFFSET as i64 {
                    Err(VMError::InvalidFrame)
                } else {
                    Ok(Self(number as i16))
                }
            },
            None => Err(VMError::InvalidFrame),
        }
    }

    /// The location, which always satisfies [`is_frame_offset`].
    #[must_use]
    pub fn value(&self) -> (v: Value)
        ensures
            v == self.spec_value(),
            is_frame_offset(v as int),
    {
        proof {
            use_type_invariant(self);
        }
        self.0
    }
}

} // verus!
