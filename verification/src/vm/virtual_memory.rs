//! The translation engine: physical memory and the backing store, and the
//! walk from a virtual address to a physical one.

use crate::constants::{
    MEMORY_WORD_COUNT, PAGE_COUNT, PAGE_SIZE, SEGMENT_PAGE_TABLE_OFFSET, SEGMENT_SIZE_OFFSET,
    SEGMENT_WORD_COUNT,
};
use crate::error::{VMError, VMResult};
use crate::io::pt_input::PTInput;
use crate::io::st_input::STInput;
use crate::vm::frame::zero_page;
use crate::vm::location::Location;
use crate::vm::machine_laws::{
    lemma_allocate, lemma_initial_wf, lemma_lowest_free_is, lemma_mark_used_wf, lemma_resolve,
    lemma_translate, lemma_with_page_wf, lemma_with_segment_wf,
};
use crate::vm::machine_state::{count_free, holds_location, size_slot, MachineState};
use crate::vm::physical_memory::{PhysicalMemory, PhysicalMemoryTrait};
use crate::vm::virtual_address::VirtualAddress;
use vstd::prelude::*;

verus! {

pub type Address = u32;

/// The engine. It owns physical memory and the backing store, and nothing
/// else reads or writes them.
#[derive(Debug, PartialEq, Eq)]
pub struct VirtualMemory {
    physical_memory: PhysicalMemory,
    disk: Vec<[i32; PAGE_SIZE]>,
}

impl View for VirtualMemory {
    type V = MachineState;

    closed spec fn view(&self) -> MachineState {
        MachineState {
            frames: self.physical_memory.words(),
            free: self.physical_memory.free(),
            disk: Seq::new(self.disk@.len(), |b: int| self.disk@[b]@),
        }
    }
}

/// A frame number as the state's functions give it, from one of the engine.
pub open spec fn frame_of(result: VMResult<usize>) -> VMResult<int> {
    match result {
        Ok(frame) => Ok(frame as int),
        Err(e) => Err(e),
    }
}

impl VirtualMemory {
    /// The invariant of the engine, which is that of its state.
    pub open spec fn wf(&self) -> bool {
        self@.wf()
    }

    /// An engine initialised by `segment_table_init` and then by
    /// `page_table_init`, each taken in order.
    ///
    /// Every word starts at zero and every frame free, but for the frames of
    /// the segment table. A segment's entry writes the segment's size and
    /// its page table's location to the segment table. A page's entry writes
    /// the page's location to the page table of its segment, on the backing
    /// store or in memory, wherever the table's location says it is. A frame
    /// that a location names is taken into use. With valid entries this
    /// never fails.
    pub fn new(
        segment_table_init: Vec<STInput>,
        page_table_init: Vec<PTInput>,
    ) -> (result: VMResult<Self>)
        requires
            forall|k: int|
                0 <= k < segment_table_init@.len() ==> (#[trigger] segment_table_init@[k]).wf(),
            forall|k: int|
                0 <= k < page_table_init@.len() ==> (#[trigger] page_table_init@[k]).wf(),
        ensures
            result is Ok,
            result.unwrap().wf(),
            result.unwrap()@ == MachineState::initialized(
                segment_table_init@,
                page_table_init@,
            ),
    {
        let mut memory = Self::blank();
        let mut k: usize = 0;
        while k < segment_table_init.len()
            invariant
                k <= segment_table_init@.len(),
                forall|j: int|
                    0 <= j < segment_table_init@.len() ==> (#[trigger] segment_table_init@[j]).wf(),
                memory.wf(),
                memory@ == MachineState::initial().with_segments(segment_table_init@.take(k as int)),
            decreases segment_table_init@.len() - k,
        {
            memory.add_segment(&segment_table_init[k]);
            assert(segment_table_init@.take(k + 1).drop_last() =~= segment_table_init@.take(
                k as int,
            ));
            k = k + 1;
        }
        assert(segment_table_init@.take(k as int) =~= segment_table_init@);
        let ghost segmented = memory@;
        let mut k: usize = 0;
        while k < page_table_init.len()
            invariant
                k <= page_table_init@.len(),
                forall|j: int|
                    0 <= j < page_table_init@.len() ==> (#[trigger] page_table_init@[j]).wf(),
                memory.wf(),
                memory@ == segmented.with_pages(page_table_init@.take(k as int)),
            decreases page_table_init@.len() - k,
        {
            memory.add_page(&page_table_init[k]);
            assert(page_table_init@.take(k + 1).drop_last() =~= page_table_init@.take(k as int));
            k = k + 1;
        }
        assert(page_table_init@.take(k as int) =~= page_table_init@);
        Ok(memory)
    }

    /// An engine before any entry.
    fn blank() -> (memory: Self)
        ensures
            memory.wf(),
            memory@ == MachineState::initial(),
    {
        let mut physical_memory = PhysicalMemory::new_memory();
        let mut disk: Vec<[i32; PAGE_SIZE]> = Vec::with_capacity(PAGE_COUNT);
        let mut block: usize = 0;
        while block < PAGE_COUNT
            invariant
                block <= PAGE_COUNT,
                disk@.len() == block,
                forall|b: int|
                    0 <= b < block ==> (#[trigger] disk@[b])@ == Seq::new(
                        PAGE_SIZE as nat,
                        |i: int| 0i32,
                    ),
            decreases PAGE_COUNT - block,
        {
            disk.push(zero_page());
            block = block + 1;
        }
        let mut frame: usize = 0;
        while frame < SEGMENT_WORD_COUNT
            invariant
                frame <= SEGMENT_WORD_COUNT,
                physical_memory.wf(),
                physical_memory.words() == Seq::new(
                    PAGE_COUNT as nat,
                    |f: int| Seq::new(PAGE_SIZE as nat, |i: int| 0i32),
                ),
                physical_memory.free() == Seq::new(PAGE_COUNT as nat, |f: int| f >= frame),
            decreases SEGMENT_WORD_COUNT - frame,
        {
            let ghost before = physical_memory;
            physical_memory[frame].free = false;
            assert(physical_memory.words() =~= before.words());
            assert forall|f: int| 0 <= f < PAGE_COUNT implies physical_memory@[f].free == (f
                >= frame + 1) by {
                assert(before.free()[f] == (f >= frame));
            }
            assert(physical_memory.free() =~= Seq::new(PAGE_COUNT as nat, |f: int| f >= frame + 1));
            frame = frame + 1;
        }
        let memory = Self { physical_memory, disk };
        proof {
            assert(memory@ =~~= MachineState::initial());
            lemma_initial_wf();
        }
        memory
    }

    /// Applies a segment's entry.
    fn add_segment(&mut self, entry: &STInput)
        requires
            old(self).wf(),
            entry.wf(),
        ensures
            final(self).wf(),
            final(self)@ == old(self)@.with_segment(*entry),
    {
        let segment_base_address: usize = entry.segment as usize * SEGMENT_WORD_COUNT;
        self.physical_memory.set_word_by_address(
            segment_base_address + SEGMENT_SIZE_OFFSET,
            entry.size as i32,
        );
        self.physical_memory.set_word_by_address(
            segment_base_address + SEGMENT_PAGE_TABLE_OFFSET,
            entry.frame as i32,
        );
        if entry.frame > 0 {
            let ghost before = self.physical_memory;
            self.physical_memory[entry.frame as usize].free = false;
            assert(self.physical_memory.words() =~= before.words());
            assert(self.physical_memory.free() =~= before.free().update(entry.frame as int, false));
        }
        proof {
            assert(self@ =~~= old(self)@.with_segment(*entry));
            lemma_with_segment_wf(old(self)@, *entry);
        }
    }

    /// Applies a page's entry.
    fn add_page(&mut self, entry: &PTInput)
        requires
            old(self).wf(),
            entry.wf(),
        ensures
            final(self).wf(),
            final(self)@ == old(self)@.with_page(*entry),
    {
        let slot: usize = entry.segment as usize * SEGMENT_WORD_COUNT + SEGMENT_PAGE_TABLE_OFFSET;
        let table: i32 = self.physical_memory.get_word_by_address(slot);
        let page_offset: usize = entry.page as usize;
        proof {
            let at = slot as int / PAGE_SIZE as int;
            let offset = slot as int % PAGE_SIZE as int;
            assert(holds_location(at * PAGE_SIZE + offset));
            assert(self@.can_follow(self@.frames[at][offset]));
        }
        match Location::decode(table) {
            Location::OnDisk(block) => {
                let block: usize = block as usize;
                self.disk[block][page_offset] = entry.frame as i32;
                assert(Seq::new(self.disk@.len(), |b: int| self.disk@[b]@) =~~= old(
                    self,
                )@.store_on_disk(block as int, page_offset as int, entry.frame as i32).disk);
            },
            Location::Uninitialized => {
                self.physical_memory.set_word_by_offset(0, page_offset, entry.frame as i32);
            },
            Location::Resident(frame) => {
                self.physical_memory.set_word_by_offset(
                    frame as usize,
                    page_offset,
                    entry.frame as i32,
                );
            },
        }
        if entry.frame > 0 {
            let ghost before = self.physical_memory;
            self.physical_memory[entry.frame as usize].free = false;
            assert(self.physical_memory.words() =~= before.words());
            assert(self.physical_memory.free() =~= before.free().update(entry.frame as int, false));
        }
        proof {
            assert(self@ =~~= old(self)@.with_page(*entry));
            lemma_with_page_wf(old(self)@, *entry);
        }
    }

    /// Takes the free frame of lowest number beyond the segment table.
    ///
    /// Returns the frame, which is then in use. With no frame free it
    /// returns `MemoryFull` and changes nothing.
    pub fn allocate_page(&mut self) -> (result: VMResult<usize>)
        requires
            old(self).wf(),
        ensures
            final(self).wf(),
            (final(self)@, frame_of(result)) == old(self)@.allocate(),
            result is Err <==> old(self)@.is_full(),
            result matches Err(e) ==> e == VMError::MemoryFull,
            result matches Ok(frame) ==> old(self)@.is_lowest_free(frame as int),
    {
        proof {
            lemma_allocate(self@);
        }
        let mut frame: usize = SEGMENT_WORD_COUNT;
        while frame < PAGE_COUNT
            invariant
                SEGMENT_WORD_COUNT <= frame <= PAGE_COUNT,
                self == old(self),
                self.wf(),
                forall|g: int| SEGMENT_WORD_COUNT <= g < frame ==> !#[trigger] self@.free[g],
            decreases PAGE_COUNT - frame,
        {
            if self.physical_memory[frame].free {
                proof {
                    assert(self@.is_lowest_free(frame as int));
                    lemma_lowest_free_is(self@, frame as int);
                }
                let ghost before = self.physical_memory;
                self.physical_memory[frame].free = false;
                assert(self.physical_memory.words() =~= before.words());
                assert(self.physical_memory.free() =~= before.free().update(frame as int, false));
                assert(self@ =~~= old(self)@.mark_used(frame as int));
                return Ok(frame);
            }
            frame = frame + 1;
        }
        Err(VMError::MemoryFull)
    }

    /// Follows the location in the word at `address` to a frame.
    ///
    /// A resident location is its frame. One on the backing store is brought
    /// in: a frame is taken, the block is copied into it, and the word is
    /// made to name the frame. A word that gives no location is
    /// `MemoryNotInitialized`, and with no frame free the result is
    /// `MemoryFull`; neither changes anything.
    fn get_frame(&mut self, address: usize) -> (result: VMResult<usize>)
        requires
            old(self).wf(),
            address < MEMORY_WORD_COUNT,
            holds_location(address as int),
        ensures
            final(self).wf(),
            (final(self)@, frame_of(result)) == old(self)@.resolve(address as int),
            result matches Ok(frame) ==> SEGMENT_WORD_COUNT <= frame < PAGE_COUNT,
    {
        proof {
            lemma_resolve(self@, address as int);
            let at = address as int / PAGE_SIZE as int;
            let offset = address as int % PAGE_SIZE as int;
            assert(holds_location(at * PAGE_SIZE + offset));
            assert(self@.can_follow(self@.frames[at][offset]));
        }
        match Location::decode(self.physical_memory.get_word_by_address(address)) {
            Location::OnDisk(block) => {
                let block: usize = block as usize;
                let free_frame: usize = match self.allocate_page() {
                    Ok(frame) => frame,
                    Err(e) => { return Err(e); },
                };
                let ghost taken = self@;
                let ghost before = self.physical_memory;
                self.physical_memory[free_frame].data = self.disk[block];
                assert(self.physical_memory.free() =~= before.free());
                assert(self.physical_memory.words() =~= before.words().update(
                    free_frame as int,
                    self.disk@[block as int]@,
                ));
                assert(self@ =~~= taken.load(free_frame as int, block as int));
                self.physical_memory.set_word_by_address(
                    address,
                    Location::Resident(free_frame as u32).encode(),
                );
                assert(self@ =~~= taken.load(free_frame as int, block as int).store(
                    address as int,
                    free_frame as i32,
                ));
                Ok(free_frame)
            },
            Location::Uninitialized => Err(VMError::MemoryNotInitialized),
            Location::Resident(frame) => Ok(frame as usize),
        }
    }

    /// Translates `virtual_address` to the physical address of its word.
    ///
    /// An address at or beyond the size of its segment is
    /// `VirtualAddressOutOfBounds`: this is tested first, and then nothing
    /// is brought in and nothing changes. Otherwise the page table of the
    /// segment is found, and in it the page, each brought in from the
    /// backing store where it is not resident. A segment or a page that was
    /// never given a location is `MemoryNotInitialized`. Where something has
    /// to be brought in and no frame is free, the result is `MemoryFull`.
    ///
    /// An address that comes back is word `w` of a frame beyond the segment
    /// table. Whatever the result, the backing store is as it was, and no
    /// frame that was in use is free.
    pub fn translate(&mut self, virtual_address: VirtualAddress) -> (result: VMResult<Address>)
        requires
            old(self).wf(),
            virtual_address.wf(),
        ensures
            final(self).wf(),
            (final(self)@, result) == old(self)@.translate(virtual_address),
            virtual_address.pw >= old(self)@.word(size_slot(virtual_address.s as int)) ==> result
                == Err::<Address, VMError>(VMError::VirtualAddressOutOfBounds) && final(self)@
                == old(self)@,
            result matches Ok(physical) ==> SEGMENT_WORD_COUNT * PAGE_SIZE <= physical
                < MEMORY_WORD_COUNT && physical as int % PAGE_SIZE as int == virtual_address.w,
            final(self)@.disk == old(self)@.disk,
            forall|f: int|
                0 <= f < PAGE_COUNT && !old(self)@.free[f] ==> !#[trigger] final(self)@.free[f],
    {
        proof {
            lemma_translate(self@, virtual_address);
        }
        let segment_base: usize = virtual_address.s as usize * SEGMENT_WORD_COUNT;
        let segment_size: i32 = self.physical_memory.get_word_by_address(
            segment_base + SEGMENT_SIZE_OFFSET,
        );
        if segment_size < 0 || virtual_address.pw >= segment_size as u32 {
            return Err(VMError::VirtualAddressOutOfBounds);
        }
        let page_table_frame: usize = match self.get_frame(
            segment_base + SEGMENT_PAGE_TABLE_OFFSET,
        ) {
            Ok(frame) => frame,
            Err(e) => { return Err(e); },
        };
        let page_frame: usize = match self.get_frame(
            page_table_frame * PAGE_SIZE + virtual_address.p as usize,
        ) {
            Ok(frame) => frame,
            Err(e) => { return Err(e); },
        };
        Ok((page_frame * PAGE_SIZE + virtual_address.w as usize) as u32)
    }

    /// Takes frame `frame` into use, whether or not it was free.
    pub fn mark_frame_used(&mut self, frame: usize)
        requires
            old(self).wf(),
            frame < PAGE_COUNT,
        ensures
            final(self).wf(),
            final(self)@ == old(self)@.mark_used(frame as int),
    {
        let ghost before = self.physical_memory;
        self.physical_memory[frame].free = false;
        proof {
            assert(self.physical_memory.words() =~= before.words());
            assert(self.physical_memory.free() =~= before.free().update(frame as int, false));
            assert(self@ =~~= old(self)@.mark_used(frame as int));
            lemma_mark_used_wf(old(self)@, frame as int);
        }
    }

    /// The word of physical memory at `address`.
    pub fn word(&self, address: usize) -> (word: i32)
        requires
            self.wf(),
            address < MEMORY_WORD_COUNT,
        ensures
            word == self@.word(address as int),
    {
        self.physical_memory.get_word_by_address(address)
    }

    /// The word at `offset` within block `block` of the backing store.
    pub fn disk_word(&self, block: usize, offset: usize) -> (word: i32)
        requires
            self.wf(),
            block < PAGE_COUNT,
            offset < PAGE_SIZE,
        ensures
            word == self@.disk[block as int][offset as int],
    {
        self.disk[block][offset]
    }

    /// Whether frame `frame` is free.
    pub fn is_frame_free(&self, frame: usize) -> (free: bool)
        requires
            self.wf(),
            frame < PAGE_COUNT,
        ensures
            free == self@.free[frame as int],
    {
        self.physical_memory[frame].free
    }

    /// The number of free frames.
    pub fn free_frame_count(&self) -> (count: usize)
        requires
            self.wf(),
        ensures
            count == self@.free_count(),
    {
        let mut count: usize = 0;
        let mut frame: usize = 0;
        while frame < PAGE_COUNT
            invariant
                frame <= PAGE_COUNT,
                self.wf(),
                count <= frame,
                count == count_free(self@.free, frame as int),
            decreases PAGE_COUNT - frame,
        {
            if self.physical_memory[frame].free {
                count = count + 1;
            }
            frame = frame + 1;
        }
        count
    }
}

} // verus!
