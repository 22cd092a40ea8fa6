//! What the translation engine holds, as plain mathematics: the words of
//! physical memory, which frames are free, and the words of the backing
//! store; and what initialising and translating do to them.

use crate::constants::{
    PAGE_COUNT, PAGE_SIZE, SEGMENT_PAGE_TABLE_OFFSET, SEGMENT_SIZE_OFFSET, SEGMENT_WORD_COUNT,
};
use crate::error::{VMError, VMResult};
use crate::io::data::frame_offset::is_frame_offset;
use crate::io::pt_input::PTInput;
use crate::io::st_input::STInput;
use crate::vm::location::Location;
use crate::vm::virtual_address::VirtualAddress;
use vstd::prelude::*;

verus! {

/// The state of the engine.
///
/// `frames[f][i]` is word `i` of frame `f` of physical memory, `free[f]` says
/// whether frame `f` is still free, and `disk[b][i]` is word `i` of block `b`
/// of the backing store.
///
/// A word that stands for a location is read as [`Location`] says.
#[verifier::ext_equal]
pub struct MachineState {
    pub frames: Seq<Seq<i32>>,
    pub free: Seq<bool>,
    pub disk: Seq<Seq<i32>>,
}

/// The address of the word that holds the size of segment `s`.
pub open spec fn size_slot(s: int) -> int {
    s * SEGMENT_WORD_COUNT + SEGMENT_SIZE_OFFSET
}

/// The address of the word that holds the location of the page table of
/// segment `s`.
pub open spec fn table_slot(s: int) -> int {
    s * SEGMENT_WORD_COUNT + SEGMENT_PAGE_TABLE_OFFSET
}

/// Whether the word at `address` always stands for a location: the second
/// word of each entry of the segment table, and every word of the frames
/// beyond the table.
pub open spec fn holds_location(address: int) -> bool {
    address >= SEGMENT_WORD_COUNT * PAGE_SIZE || address % 2 == 1
}

/// How many of the first `count` flags of `free` are set.
pub open spec fn count_free(free: Seq<bool>, count: int) -> int
    decreases count,
{
    if count <= 0 {
        0
    } else {
        count_free(free, count - 1) + if free[count - 1] {
            1int
        } else {
            0int
        }
    }
}

impl MachineState {
    /// Whether memory and backing store have their fixed dimensions.
    pub open spec fn shaped(self) -> bool {
        &&& self.frames.len() == PAGE_COUNT
        &&& self.free.len() == PAGE_COUNT
        &&& self.disk.len() == PAGE_COUNT
        &&& forall|f: int| 0 <= f < PAGE_COUNT ==> (#[trigger] self.frames[f]).len() == PAGE_SIZE
        &&& forall|b: int| 0 <= b < PAGE_COUNT ==> (#[trigger] self.disk[b]).len() == PAGE_SIZE
    }

    /// Whether `word` can be followed as a location: it is within the bounds
    /// of a location, and where it names a frame, that frame is in use.
    pub open spec fn can_follow(self, word: i32) -> bool {
        is_frame_offset(word as int) && (word > 0 ==> !self.free[word as int])
    }

    /// The invariant of the engine. The frames of the segment table are in
    /// use, and every word that stands for a location, in memory or on the
    /// backing store, can be followed.
    pub open spec fn wf(self) -> bool {
        &&& self.shaped()
        &&& forall|f: int| 0 <= f < SEGMENT_WORD_COUNT ==> !#[trigger] self.free[f]
        &&& forall|f: int, i: int|
            0 <= f < PAGE_COUNT && 0 <= i < PAGE_SIZE && holds_location(f * PAGE_SIZE + i)
                ==> self.can_follow(#[trigger] self.frames[f][i])
        &&& forall|b: int, i: int|
            0 <= b < PAGE_COUNT && 0 <= i < PAGE_SIZE ==> self.can_follow(
                #[trigger] self.disk[b][i],
            )
    }

    /// The word of physical memory at `address`.
    pub open spec fn word(self, address: int) -> i32 {
        self.frames[address / PAGE_SIZE as int][address % PAGE_SIZE as int]
    }

    /// The state with `value` written to word `offset` of frame `frame`.
    pub open spec fn store_in_frame(self, frame: int, offset: int, value: i32) -> Self {
        MachineState {
            frames: self.frames.update(frame, self.frames[frame].update(offset, value)),
            ..self
        }
    }

    /// The state with `value` written to the word at `address`.
    pub open spec fn store(self, address: int, value: i32) -> Self {
        self.store_in_frame(address / PAGE_SIZE as int, address % PAGE_SIZE as int, value)
    }

    /// The state with `value` written to word `offset` of block `block` of
    /// the backing store.
    pub open spec fn store_on_disk(self, block: int, offset: int, value: i32) -> Self {
        MachineState {
            disk: self.disk.update(block, self.disk[block].update(offset, value)),
            ..self
        }
    }

    /// The state with frame `frame` in use.
    pub open spec fn mark_used(self, frame: int) -> Self {
        MachineState { free: self.free.update(frame, false), ..self }
    }

    /// The state in which the frame that `location` names, if it names one,
    /// is in use.
    pub open spec fn mark_resident(self, location: int) -> Self {
        if location > 0 {
            self.mark_used(location)
        } else {
            self
        }
    }

    /// The state with the words of block `block` copied into frame `frame`.
    pub open spec fn load(self, frame: int, block: int) -> Self {
        MachineState { frames: self.frames.update(frame, self.disk[block]), ..self }
    }

    /// Whether `frame` is the free frame of lowest number beyond the segment
    /// table.
    pub open spec fn is_lowest_free(self, frame: int) -> bool {
        &&& SEGMENT_WORD_COUNT <= frame < PAGE_COUNT
        &&& self.free[frame]
        &&& forall|g: int| SEGMENT_WORD_COUNT <= g < frame ==> !#[trigger] self.free[g]
    }

    /// Whether no frame beyond the segment table is free.
    pub open spec fn is_full(self) -> bool {
        forall|f: int| SEGMENT_WORD_COUNT <= f < PAGE_COUNT ==> !#[trigger] self.free[f]
    }

    /// The free frame of lowest number beyond the segment table, if any frame
    /// there is free.
    pub open spec fn lowest_free(self) -> Option<int> {
        if exists|f: int| self.is_lowest_free(f) {
            Some(choose|f: int| self.is_lowest_free(f))
        } else {
            None
        }
    }

    /// Takes the free frame of lowest number: the state with that frame in
    /// use, and the frame. With no frame free, the state as it is and
    /// `MemoryFull`.
    pub open spec fn allocate(self) -> (Self, VMResult<int>) {
        match self.lowest_free() {
            Some(frame) => (self.mark_used(frame), Ok(frame)),
            None => (self, Err(VMError::MemoryFull)),
        }
    }

    /// Follows the location in the word at `slot` to a frame.
    ///
    /// A resident location is its frame. One on the backing store is brought
    /// in: the lowest free frame is taken, the block is copied into it, and
    /// then the word at `slot` is made to name that frame. With no frame free
    /// nothing changes and the result is `MemoryFull`. A word that gives no
    /// location is `MemoryNotInitialized`.
    pub open spec fn resolve(self, slot: int) -> (Self, VMResult<int>) {
        match Location::of(self.word(slot)) {
            Location::OnDisk(block) => match self.allocate() {
                (taken, Ok(frame)) => (
                    taken.load(frame, block as int).store(slot, frame as i32),
                    Ok(frame),
                ),
                (_, Err(e)) => (self, Err(e)),
            },
            Location::Uninitialized => (self, Err(VMError::MemoryNotInitialized)),
            Location::Resident(frame) => (self, Ok(frame as int)),
        }
    }

    /// Translates `address`: the state afterwards, and the physical address
    /// or the error.
    ///
    /// An address at or beyond the size of its segment is
    /// `VirtualAddressOutOfBounds`, and nothing changes. Otherwise the
    /// location of the segment's page table is followed, and within that
    /// table the location of the page. The physical address is the word `w`
    /// of the page's frame. Where the second step fails, what the first step
    /// brought in stays.
    pub open spec fn translate(self, address: VirtualAddress) -> (Self, VMResult<u32>) {
        if address.pw >= self.word(size_slot(address.s as int)) {
            (self, Err(VMError::VirtualAddressOutOfBounds))
        } else {
            match self.resolve(table_slot(address.s as int)) {
                (with_table, Ok(table)) => match with_table.resolve(table * PAGE_SIZE + address.p) {
                    (with_page, Ok(page)) => (with_page, Ok((page * PAGE_SIZE + address.w) as u32)),
                    (with_page, Err(e)) => (with_page, Err(e)),
                },
                (with_table, Err(e)) => (with_table, Err(e)),
            }
        }
    }

    /// The state before any entry: every word zero, in memory and on the
    /// backing store, and every frame free but those of the segment table.
    pub open spec fn initial() -> Self {
        MachineState {
            frames: Seq::new(PAGE_COUNT as nat, |f: int| Seq::new(PAGE_SIZE as nat, |i: int| 0i32)),
            free: Seq::new(PAGE_COUNT as nat, |f: int| f >= SEGMENT_WORD_COUNT),
            disk: Seq::new(PAGE_COUNT as nat, |b: int| Seq::new(PAGE_SIZE as nat, |i: int| 0i32)),
        }
    }

    /// The state after a segment's entry: its size and its page table's
    /// location are written to the segment table, and a frame that the
    /// location names is in use.
    pub open spec fn with_segment(self, entry: STInput) -> Self {
        self.store(size_slot(entry.segment as int), entry.size as i32).store(
            table_slot(entry.segment as int),
            entry.frame as i32,
        ).mark_resident(entry.frame as int)
    }

    /// The state after a page's entry: the page's location is written to its
    /// word of the segment's page table, and a frame that the page's location
    /// names is in use. The table is where the segment's entry says it is, on
    /// the backing store or in a frame. For a segment whose table was given
    /// no location the word is read as a frame all the same, so the write
    /// goes to the first frame of memory.
    pub open spec fn with_page(self, entry: PTInput) -> Self {
        let written = match Location::of(self.word(table_slot(entry.segment as int))) {
            Location::OnDisk(block) => self.store_on_disk(
                block as int,
                entry.page as int,
                entry.frame as i32,
            ),
            Location::Uninitialized => self.store_in_frame(
                0,
                entry.page as int,
                entry.frame as i32,
            ),
            Location::Resident(frame) => self.store_in_frame(
                frame as int,
                entry.page as int,
                entry.frame as i32,
            ),
        };
        written.mark_resident(entry.frame as int)
    }

    /// The state after the segment entries `entries`, taken in order.
    pub open spec fn with_segments(self, entries: Seq<STInput>) -> Self
        decreases entries.len(),
    {
        if entries.len() == 0 {
            self
        } else {
            self.with_segments(entries.drop_last()).with_segment(entries.last())
        }
    }

    /// The state after the page entries `entries`, taken in order.
    pub open spec fn with_pages(self, entries: Seq<PTInput>) -> Self
        decreases entries.len(),
    {
        if entries.len() == 0 {
            self
        } else {
            self.with_pages(entries.drop_last()).with_page(entries.last())
        }
    }

    /// The state that the engine starts in: the initial state after all the
    /// segment entries and then all the page entries.
    pub open spec fn initialized(segments: Seq<STInput>, pages: Seq<PTInput>) -> Self {
        Self::initial().with_segments(segments).with_pages(pages)
    }

    /// The number of free frames.
    pub open spec fn free_count(self) -> int {
        count_free(self.free, self.free.len() as int)
    }
}

} // verus!
