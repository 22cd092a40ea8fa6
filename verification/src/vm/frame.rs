//! A frame of physical memory.

use crate::constants::PAGE_SIZE;
use vstd::prelude::*;

verus! {

/// A page's worth of words, and whether the frame is still free to take a
/// page or a page table.
#[derive(Debug, PartialEq, Eq, Clone, Copy)]
pub struct Frame {
    pub free: bool,
    pub data: [i32; PAGE_SIZE],
}

/// A page's worth of words, all zero.
pub fn zero_page() -> (data: [i32; PAGE_SIZE])
    ensures
        data@ == Seq::new(PAGE_SIZE as nat, |i: int| 0i32),
{
    let data: [i32; PAGE_SIZE] = [0; PAGE_SIZE];
    assert(data == vstd::array::spec_array_fill_for_copy_type::<i32, PAGE_SIZE>(0i32));
    assert(data@ =~= Seq::new(PAGE_SIZE as nat, |i: int| 0i32));
    data
}

impl Frame {
    /// A free frame whose words are all zero.
    pub fn new() -> (frame: Self)
        ensures
            frame.free,
            frame.data@ == Seq::new(PAGE_SIZE as nat, |i: int| 0i32),
    {
        Self { free: true, data: zero_page() }
    }
}

} // verus!
