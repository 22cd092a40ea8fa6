//! A page number within a segment.

use crate::constants::MAX_PAGE_OFFSET;
use crate::error::{VMError, VMResult};
use crate::io::data::decimal::{decimal_value, read_decimal};
use vstd::prelude::*;

verus! {

pub type Value = u16;

/// Whether `v` numbers a page of a segment.
pub open spec fn is_page_offset(v: int) -> bool {
    0 <= v <= MAX_PAGE_OFFSET
}

/// A page number that has passed the bounds of [`is_page_offset`].
#[derive(Debug, PartialEq, Eq)]
pub struct PageOffset(Value);

impl PageOffset {
    #[verifier::type_invariant]
    spec fn in_bounds(self) -> bool {
        is_page_offset(self.0 as int)
    }

    /// The page number that `self` holds.
    pub closed spec fn spec_value(self) -> Value {
        self.0
    }

    /// Reads a page number from unsigned decimal text.
    ///
    /// Succeeds exactly when `input` writes a number that is a page number,
    /// and then holds that number. Any other text is an `InvalidPage`.
    pub fn new(input: &str) -> (result: VMResult<Self>)
        ensures
            result is Ok <==> (decimal_value(input@, false) matches Some(v) && is_page_offset(v)),
            result matches Ok(offset) ==> decimal_value(input@, false) == Some(
                offset.spec_value() as int,
            ),
            result matches Err(e) ==> e == VMError::InvalidPage,
    {
        match read_decimal(input, false, MAX_PAGE_OFFSET as u32) {
            Some(number) => Ok(Self(number as u16)),
            None => Err(VMError::InvalidPage),
        }
    }

    /// The page number, which always satisfies [`is_page_offset`].
    #[must_use]
    pub fn value(&self) -> (v: Value)
        ensures
            v == self.spec_value(),
            is_page_offset(v as int),
    {
        proof {
            use_type_invariant(self);
        }
        self.0
    }
}

} // verus!
