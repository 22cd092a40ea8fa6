//! Physical memory: a fixed number of frames, read and written by the word.

use crate::constants::{MEMORY_WORD_COUNT, PAGE_COUNT, PAGE_SIZE};
use crate::vm::frame::Frame;
use vstd::prelude::*;

verus! {

pub type PhysicalMemory = Vec<Frame>;

/// Reading and writing words of physical memory, by absolute address or by
/// frame and offset within the frame.
pub trait PhysicalMemoryTrait: Sized {
    /// The words of each frame.
    spec fn words(&self) -> Seq<Seq<i32>>;

    /// For each frame, whether it is free.
    spec fn free(&self) -> Seq<bool>;

    /// Whether the memory has all its frames.
    spec fn wf(&self) -> bool;

    /// A memory of free frames whose words are all zero.
    fn new_memory() -> (memory: Self)
        ensures
            memory.wf(),
            memory.words() == Seq::new(
                PAGE_COUNT as nat,
                |f: int| Seq::new(PAGE_SIZE as nat, |i: int| 0i32),
            ),
            memory.free() == Seq::new(PAGE_COUNT as nat, |f: int| true),
    ;

    /// The word at `address`.
    fn get_word_by_address(&self, address: usize) -> (word: i32)
        requires
            self.wf(),
            address < MEMORY_WORD_COUNT,
        ensures
            word == self.words()[address as int / PAGE_SIZE as int][address as int
                % PAGE_SIZE as int],
    ;

    /// The word at `offset` within frame `frame`.
    fn get_word_by_offset(&self, frame: usize, offset: usize) -> (word: i32)
        requires
            self.wf(),
            frame < PAGE_COUNT,
            offset < PAGE_SIZE,
        ensures
            word == self.words()[frame as int][offset as int],
    ;

    /// Writes `value` to the word at `address`, and changes nothing else.
    fn set_word_by_address(&mut self, address: usize, value: i32)
        requires
            old(self).wf(),
            address < MEMORY_WORD_COUNT,
        ensures
            final(self).wf(),
            final(self).free() == old(self).free(),
            final(self).words() == old(self).words().update(
                address as int / PAGE_SIZE as int,
                old(self).words()[address as int / PAGE_SIZE as int].update(
                    address as int % PAGE_SIZE as int,
                    value,
                ),
            ),
    ;

    /// Writes `value` to the word at `offset` within frame `frame`, and
    /// changes nothing else.
    fn set_word_by_offset(&mut self, frame: usize, offset: usize, value: i32)
        requires
            old(self).wf(),
            frame < PAGE_COUNT,
            offset < PAGE_SIZE,
        ensures
            final(self).wf(),
            final(self).free() == old(self).free(),
            final(self).words() == old(self).words().update(
                frame as int,
                old(self).words()[frame as int].update(offset as int, value),
            ),
    ;
}

impl PhysicalMemoryTrait for PhysicalMemory {
    open spec fn words(&self) -> Seq<Seq<i32>> {
        Seq::new(self@.len(), |f: int| self@[f].data@)
    }

    open spec fn free(&self) -> Seq<bool> {
        Seq::new(self@.len(), |f: int| self@[f].free)
    }

    open spec fn wf(&self) -> bool {
        self@.len() == PAGE_COUNT
    }

    fn new_memory() -> (memory: Self) {
        let mut memory: Vec<Frame> = Vec::with_capacity(PAGE_COUNT);
        let mut count: usize = 0;
        while count < PAGE_COUNT
            invariant
                count <= PAGE_COUNT,
                memory@.len() == count,
                forall|f: int|
                    0 <= f < count ==> (#[trigger] memory@[f]).free && memory@[f].data@
                        == Seq::new(PAGE_SIZE as nat, |i: int| 0i32),
            decreases PAGE_COUNT - count,
        {
            memory.push(Frame::new());
            count = count + 1;
        }
        assert(memory.words() =~= Seq::new(
            PAGE_COUNT as nat,
            |f: int| Seq::new(PAGE_SIZE as nat, |i: int| 0i32),
        ));
        assert(memory.free() =~= Seq::new(PAGE_COUNT as nat, |f: int| true));
        memory
    }

    fn get_word_by_address(&self, address: usize) -> (word: i32) {
        self[address / PAGE_SIZE].data[address % PAGE_SIZE]
    }

    fn get_word_by_offset(&self, frame: usize, offset: usize) -> (word: i32) {
        self[frame].data[offset]
    }

    fn set_word_by_address(&mut self, address: usize, value: i32) {
        self[address / PAGE_SIZE].data[address % PAGE_SIZE] = value;
        assert(self.free() =~= old(self).free());
        assert(self.words() =~= old(self).words().update(
            address as int / PAGE_SIZE as int,
            old(self).words()[address as int / PAGE_SIZE as int].update(
                address as int % PAGE_SIZE as int,
                value,
            ),
        ));
    }

    fn set_word_by_offset(&mut self, frame: usize, offset: usize, value: i32) {
        self[frame].data[offset] = value;
        assert(self.free() =~= old(self).free());
        assert(self.words() =~= old(self).words().update(
            frame as int,
            old(self).words()[frame as int].update(offset as int, value),
        ));
    }
}

} // verus!
