//! What holds of the engine's state: the invariant and what keeps it, and
//! what translating an address does and does not change.

use crate::constants::{MEMORY_WORD_COUNT, PAGE_COUNT, PAGE_SIZE, SEGMENT_WORD_COUNT};
use crate::error::VMError;
use crate::io::pt_input::PTInput;
use crate::io::st_input::STInput;
use crate::vm::machine_state::{count_free, holds_location, size_slot, table_slot, MachineState};
use crate::vm::virtual_address::VirtualAddress;
use vstd::arithmetic::div_mod::{lemma_mod_multiples_vanish, lemma_small_mod};
use vstd::prelude::*;

verus! {

/// The state before any entry satisfies the invariant.
pub proof fn lemma_initial_wf()
    ensures
        MachineState::initial().wf(),
{
}

/// Taking a frame into use keeps the invariant.
pub proof fn lemma_mark_used_wf(state: MachineState, frame: int)
    requires
        state.wf(),
        0 <= frame < PAGE_COUNT,
    ensures
        state.mark_used(frame).wf(),
{
    let next = state.mark_used(frame);
    assert forall|f: int, i: int|
        0 <= f < PAGE_COUNT && 0 <= i < PAGE_SIZE && holds_location(
            f * PAGE_SIZE + i,
        ) implies next.can_follow(#[trigger] next.frames[f][i]) by {
        assert(state.can_follow(state.frames[f][i]));
    }
    assert forall|b: int, i: int| 0 <= b < PAGE_COUNT && 0 <= i < PAGE_SIZE implies next.can_follow(
        #[trigger] next.disk[b][i],
    ) by {
        assert(state.can_follow(state.disk[b][i]));
    }
}

/// Writing a word of memory keeps the invariant, if the word can be followed
/// wherever it stands for a location.
pub proof fn lemma_store_in_frame_wf(state: MachineState, frame: int, offset: int, value: i32)
    requires
        state.wf(),
        0 <= frame < PAGE_COUNT,
        0 <= offset < PAGE_SIZE,
        holds_location(frame * PAGE_SIZE + offset) ==> state.can_follow(value),
    ensures
        state.store_in_frame(frame, offset, value).wf(),
{
    let next = state.store_in_frame(frame, offset, value);
    assert forall|f: int, i: int|
        0 <= f < PAGE_COUNT && 0 <= i < PAGE_SIZE && holds_location(
            f * PAGE_SIZE + i,
        ) implies next.can_follow(#[trigger] next.frames[f][i]) by {
        if f == frame && i == offset {
        } else {
            assert(state.can_follow(state.frames[f][i]));
        }
    }
    assert forall|b: int, i: int| 0 <= b < PAGE_COUNT && 0 <= i < PAGE_SIZE implies next.can_follow(
        #[trigger] next.disk[b][i],
    ) by {
        assert(state.can_follow(state.disk[b][i]));
    }
}

/// Writing a word of the backing store keeps the invariant, if the word can
/// be followed.
pub proof fn lemma_store_on_disk_wf(state: MachineState, block: int, offset: int, value: i32)
    requires
        state.wf(),
        0 <= block < PAGE_COUNT,
        0 <= offset < PAGE_SIZE,
        state.can_follow(value),
    ensures
        state.store_on_disk(block, offset, value).wf(),
{
    let next = state.store_on_disk(block, offset, value);
    assert forall|f: int, i: int|
        0 <= f < PAGE_COUNT && 0 <= i < PAGE_SIZE && holds_location(
            f * PAGE_SIZE + i,
        ) implies next.can_follow(#[trigger] next.frames[f][i]) by {
        assert(state.can_follow(state.frames[f][i]));
    }
    assert forall|b: int, i: int| 0 <= b < PAGE_COUNT && 0 <= i < PAGE_SIZE implies next.can_follow(
        #[trigger] next.disk[b][i],
    ) by {
        if b == block && i == offset {
        } else {
            assert(state.can_follow(state.disk[b][i]));
        }
    }
}

/// Copying a block of the backing store into a frame keeps the invariant.
pub proof fn lemma_load_wf(state: MachineState, frame: int, block: int)
    requires
        state.wf(),
        0 <= frame < PAGE_COUNT,
        0 <= block < PAGE_COUNT,
    ensures
        state.load(frame, block).wf(),
{
    let next = state.load(frame, block);
    assert forall|f: int, i: int|
        0 <= f < PAGE_COUNT && 0 <= i < PAGE_SIZE && holds_location(
            f * PAGE_SIZE + i,
        ) implies next.can_follow(#[trigger] next.frames[f][i]) by {
        if f == frame {
            assert(state.can_follow(state.disk[block][i]));
        } else {
            assert(state.can_follow(state.frames[f][i]));
        }
    }
    assert forall|f: int| 0 <= f < PAGE_COUNT implies (#[trigger] next.frames[f]).len()
        == PAGE_SIZE by {
        if f == frame {
            assert(state.disk[block].len() == PAGE_SIZE);
        } else {
            assert(state.frames[f].len() == PAGE_SIZE);
        }
    }
}

/// A valid segment entry keeps the invariant.
pub proof fn lemma_with_segment_wf(state: MachineState, entry: STInput)
    requires
        state.wf(),
        entry.wf(),
    ensures
        state.with_segment(entry).wf(),
{
    let s = entry.segment as int;
    let location = entry.frame as int;
    let marked = state.mark_resident(location);
    if location > 0 {
        lemma_mark_used_wf(state, location);
    }
    let sized = marked.store(size_slot(s), entry.size as i32);
    lemma_store_in_frame_wf(
        marked,
        size_slot(s) / PAGE_SIZE as int,
        size_slot(s) % PAGE_SIZE as int,
        entry.size as i32,
    );
    let placed = sized.store(table_slot(s), entry.frame as i32);
    lemma_store_in_frame_wf(
        sized,
        table_slot(s) / PAGE_SIZE as int,
        table_slot(s) % PAGE_SIZE as int,
        entry.frame as i32,
    );
    assert(placed =~~= state.with_segment(entry));
}

/// A valid page entry keeps the invariant.
pub proof fn lemma_with_page_wf(state: MachineState, entry: PTInput)
    requires
        state.wf(),
        entry.wf(),
    ensures
        state.with_page(entry).wf(),
{
    let slot = table_slot(entry.segment as int);
    let table = state.word(slot);
    let location = entry.frame as int;
    assert(holds_location((slot / PAGE_SIZE as int) * PAGE_SIZE + slot % PAGE_SIZE as int));
    assert(state.can_follow(state.frames[slot / PAGE_SIZE as int][slot % PAGE_SIZE as int]));
    let marked = state.mark_resident(location);
    if location > 0 {
        lemma_mark_used_wf(state, location);
    }
    if table < 0 {
        lemma_store_on_disk_wf(marked, -table, entry.page as int, entry.frame as i32);
        assert(marked.store_on_disk(-table, entry.page as int, entry.frame as i32)
            =~~= state.with_page(entry));
    } else {
        lemma_store_in_frame_wf(marked, table as int, entry.page as int, entry.frame as i32);
        assert(marked.store_in_frame(table as int, entry.page as int, entry.frame as i32)
            =~~= state.with_page(entry));
    }
}

/// What a segment's entry leaves behind: the size and the location in the
/// two words of the segment, and the frame that the location names in use.
/// An earlier entry for the same segment is thereby overwritten.
pub proof fn lemma_with_segment_reads(state: MachineState, entry: STInput)
    requires
        state.wf(),
        entry.wf(),
    ensures
        state.with_segment(entry).word(size_slot(entry.segment as int)) == entry.size,
        state.with_segment(entry).word(table_slot(entry.segment as int)) == entry.frame,
        entry.frame > 0 ==> !state.with_segment(entry).free[entry.frame as int],
        state.with_segment(entry).disk == state.disk,
{
}

/// What a page's entry leaves behind: the page's location in the word of the
/// page, in the block or the frame where the segment's table is, and the
/// frame that the location names in use. An earlier entry for the same page
/// is thereby overwritten.
pub proof fn lemma_with_page_reads(state: MachineState, entry: PTInput)
    requires
        state.wf(),
        entry.wf(),
    ensures
        ({
            let table = state.word(table_slot(entry.segment as int));
            let next = state.with_page(entry);
            &&& table < 0 ==> next.disk[-table][entry.page as int] == entry.frame && next.frames
                == state.frames
            &&& table >= 0 ==> next.frames[table as int][entry.page as int] == entry.frame
                && next.disk == state.disk
            &&& entry.frame > 0 ==> !next.free[entry.frame as int]
        }),
{
    let slot = table_slot(entry.segment as int);
    assert(holds_location((slot / PAGE_SIZE as int) * PAGE_SIZE + slot % PAGE_SIZE as int));
    assert(state.can_follow(state.frames[slot / PAGE_SIZE as int][slot % PAGE_SIZE as int]));
}

/// Valid segment entries keep the invariant.
pub proof fn lemma_with_segments_wf(state: MachineState, entries: Seq<STInput>)
    requires
        state.wf(),
        forall|k: int| 0 <= k < entries.len() ==> (#[trigger] entries[k]).wf(),
    ensures
        state.with_segments(entries).wf(),
    decreases entries.len(),
{
    if entries.len() > 0 {
        lemma_with_segments_wf(state, entries.drop_last());
        lemma_with_segment_wf(state.with_segments(entries.drop_last()), entries.last());
    }
}

/// Valid page entries keep the invariant.
pub proof fn lemma_with_pages_wf(state: MachineState, entries: Seq<PTInput>)
    requires
        state.wf(),
        forall|k: int| 0 <= k < entries.len() ==> (#[trigger] entries[k]).wf(),
    ensures
        state.with_pages(entries).wf(),
    decreases entries.len(),
{
    if entries.len() > 0 {
        lemma_with_pages_wf(state, entries.drop_last());
        lemma_with_page_wf(state.with_pages(entries.drop_last()), entries.last());
    }
}

/// The state that valid entries initialise satisfies the invariant.
pub proof fn lemma_initialized_wf(segments: Seq<STInput>, pages: Seq<PTInput>)
    requires
        forall|k: int| 0 <= k < segments.len() ==> (#[trigger] segments[k]).wf(),
        forall|k: int| 0 <= k < pages.len() ==> (#[trigger] pages[k]).wf(),
    ensures
        MachineState::initialized(segments, pages).wf(),
{
    lemma_initial_wf();
    lemma_with_segments_wf(MachineState::initial(), segments);
    lemma_with_pages_wf(MachineState::initial().with_segments(segments), pages);
}

/// There is at most one lowest free frame, and it is the one that is taken.
pub proof fn lemma_lowest_free_is(state: MachineState, frame: int)
    requires
        state.is_lowest_free(frame),
    ensures
        state.lowest_free() == Some(frame),
{
    let chosen = choose|f: int| state.is_lowest_free(f);
    if chosen < frame {
        assert(!state.free[chosen]);
    } else if frame < chosen {
        assert(!state.free[frame]);
    }
}

/// Below a free frame there is a lowest free frame.
pub proof fn lemma_lowest_free_exists(state: MachineState, frame: int)
    requires
        SEGMENT_WORD_COUNT <= frame < PAGE_COUNT,
        state.free[frame],
    ensures
        exists|f: int| state.is_lowest_free(f),
    decreases frame,
{
    if exists|g: int| SEGMENT_WORD_COUNT <= g < frame && state.free[g] {
        let g = choose|g: int| SEGMENT_WORD_COUNT <= g < frame && state.free[g];
        lemma_lowest_free_exists(state, g);
    } else {
        assert(state.is_lowest_free(frame));
    }
}

/// Taking a frame fails exactly when memory is full, and then with
/// `MemoryFull` and no change. Otherwise the frame taken is the lowest free
/// frame beyond the segment table, and only its flag changes.
pub proof fn lemma_allocate(state: MachineState)
    requires
        state.wf(),
    ensures
        state.allocate().0.wf(),
        state.is_full() <==> state.allocate().1 is Err,
        state.is_full() ==> state.allocate() == (
            state,
            Err::<int, VMError>(VMError::MemoryFull),
        ),
        state.allocate().1 matches Ok(frame) ==> state.is_lowest_free(frame)
            && state.allocate().0 == state.mark_used(frame),
{
    if state.is_full() {
        assert forall|f: int| !state.is_lowest_free(f) by {
            if SEGMENT_WORD_COUNT <= f < PAGE_COUNT {
                assert(!state.free[f]);
            }
        }
    } else {
        let f = choose|f: int| SEGMENT_WORD_COUNT <= f < PAGE_COUNT && state.free[f];
        lemma_lowest_free_exists(state, f);
        let frame = choose|f: int| state.is_lowest_free(f);
        lemma_mark_used_wf(state, frame);
    }
}

/// Following a location keeps the invariant. A failure changes nothing. On
/// success the frame lies beyond the segment table and is in use, the word
/// that was followed names it, the backing store is as it was, and no frame
/// has become free.
pub proof fn lemma_resolve(state: MachineState, slot: int)
    requires
        state.wf(),
        0 <= slot < MEMORY_WORD_COUNT,
        holds_location(slot),
    ensures
        state.resolve(slot).0.wf(),
        state.resolve(slot).0.disk == state.disk,
        state.resolve(slot).1 is Err ==> state.resolve(slot).0 == state,
        state.resolve(slot).1 matches Ok(frame) ==> {
            &&& SEGMENT_WORD_COUNT <= frame < PAGE_COUNT
            &&& !state.resolve(slot).0.free[frame]
            &&& state.resolve(slot).0.word(slot) == frame
        },
        forall|f: int|
            0 <= f < PAGE_COUNT && !state.free[f] ==> !#[trigger] state.resolve(slot).0.free[f],
{
    let location = state.word(slot);
    let at = slot / PAGE_SIZE as int;
    let offset = slot % PAGE_SIZE as int;
    assert(holds_location(at * PAGE_SIZE + offset));
    assert(state.can_follow(state.frames[at][offset]));
    if location < 0 {
        lemma_allocate(state);
        match state.allocate() {
            (taken, Ok(frame)) => {
                lemma_load_wf(taken, frame, -location);
                let loaded = taken.load(frame, -location);
                lemma_store_in_frame_wf(loaded, at, offset, frame as i32);
            },
            (_, Err(e)) => {},
        }
    }
}

/// Translating keeps the invariant, leaves the backing store as it was and
/// frees no frame. Whatever address it gives is word `w` of a frame beyond
/// the segment table.
pub proof fn lemma_translate(state: MachineState, address: VirtualAddress)
    requires
        state.wf(),
        address.wf(),
    ensures
        state.translate(address).0.wf(),
        state.translate(address).0.disk == state.disk,
        forall|f: int|
            0 <= f < PAGE_COUNT && !state.free[f] ==> !#[trigger] state.translate(
                address,
            ).0.free[f],
        state.translate(address).1 matches Ok(physical) ==> SEGMENT_WORD_COUNT * PAGE_SIZE
            <= physical < MEMORY_WORD_COUNT && physical as int % PAGE_SIZE as int == address.w,
{
    if address.pw < state.word(size_slot(address.s as int)) {
        let slot = table_slot(address.s as int);
        lemma_resolve(state, slot);
        match state.resolve(slot) {
            (with_table, Ok(table)) => {
                lemma_resolve(with_table, table * PAGE_SIZE + address.p);
                match with_table.resolve(table * PAGE_SIZE + address.p) {
                    (with_page, Ok(page)) => {
                        let physical = state.translate(address).1.unwrap();
                        assert(physical == PAGE_SIZE * page + address.w);
                        lemma_mod_multiples_vanish(page, address.w as int, PAGE_SIZE as int);
                        lemma_small_mod(address.w as nat, PAGE_SIZE as nat);
                    },
                    (with_page, Err(e)) => {},
                }
            },
            (with_table, Err(e)) => {},
        }
    }
}

/// Clearing a flag lowers the number of set flags by one if the flag was
/// set and is among those counted, and leaves it otherwise.
pub proof fn lemma_count_free_update(free: Seq<bool>, frame: int, count: int)
    requires
        0 <= frame < free.len(),
        0 <= count <= free.len(),
    ensures
        count_free(free.update(frame, false), count) == count_free(free, count) - if frame
            < count && free[frame] {
            1int
        } else {
            0int
        },
    decreases count,
{
    if count > 0 {
        lemma_count_free_update(free, frame, count - 1);
    }
}

/// Following a location a second time gives what the first time gave, and
/// changes nothing more.
pub proof fn lemma_resolve_settles(state: MachineState, slot: int)
    requires
        state.wf(),
        0 <= slot < MEMORY_WORD_COUNT,
        holds_location(slot),
    ensures
        state.resolve(slot).0.resolve(slot) == (state.resolve(slot).0, state.resolve(slot).1),
{
    lemma_resolve(state, slot);
}

/// Following a location leaves every other word of a frame in use as it
/// was: what is brought in goes to a frame that was free.
pub proof fn lemma_resolve_keeps(state: MachineState, slot: int, other: int)
    requires
        state.wf(),
        0 <= slot < MEMORY_WORD_COUNT,
        holds_location(slot),
        0 <= other < MEMORY_WORD_COUNT,
        other != slot,
        !state.free[other / PAGE_SIZE as int],
    ensures
        state.resolve(slot).0.word(other) == state.word(other),
{
    lemma_resolve(state, slot);
    if state.word(slot) < 0 {
        lemma_allocate(state);
    }
}

/// What bringing in does. Where the word at `slot` names a block of the
/// backing store and a frame is free, following it takes the lowest free
/// frame, fills that frame with the words of the block, and makes the word at
/// `slot` name the frame. One frame fewer is free, and the frames in use keep
/// their other words.
pub proof fn lemma_resolve_brings_in(state: MachineState, slot: int)
    requires
        state.wf(),
        0 <= slot < MEMORY_WORD_COUNT,
        holds_location(slot),
        !state.free[slot / PAGE_SIZE as int],
        state.word(slot) < 0,
        !state.is_full(),
    ensures
        state.resolve(slot).1 is Ok,
        ({
            let (next, frame) = (state.resolve(slot).0, state.resolve(slot).1.unwrap());
            &&& state.is_lowest_free(frame)
            &&& next.frames[frame] == state.disk[-state.word(slot)]
            &&& next.word(slot) == frame
            &&& next.free == state.free.update(frame, false)
            &&& next.disk == state.disk
            &&& next.free_count() == state.free_count() - 1
            &&& forall|f: int|
                0 <= f < PAGE_COUNT && f != frame && f != slot / PAGE_SIZE as int
                    ==> #[trigger] next.frames[f] == state.frames[f]
        }),
{
    lemma_resolve(state, slot);
    lemma_allocate(state);
    let frame = state.resolve(slot).1.unwrap();
    lemma_count_free_update(state.free, frame, PAGE_COUNT as int);
}

/// An address at or beyond the size of its segment is refused, and nothing
/// changes: no frame is taken and the number of free frames stays.
pub proof fn lemma_translate_out_of_bounds(state: MachineState, address: VirtualAddress)
    requires
        address.pw >= state.word(size_slot(address.s as int)),
    ensures
        state.translate(address) == (
            state,
            Err::<u32, VMError>(VMError::VirtualAddressOutOfBounds),
        ),
        state.translate(address).0.free_count() == state.free_count(),
{
}

/// Where the page table and the page are both resident, translating reads
/// the two locations, changes nothing, and gives word `w` of the page's
/// frame.
pub proof fn lemma_translate_resident(state: MachineState, address: VirtualAddress)
    requires
        state.wf(),
        address.wf(),
        address.pw < state.word(size_slot(address.s as int)),
        state.word(table_slot(address.s as int)) > 0,
        state.word(state.word(table_slot(address.s as int)) * PAGE_SIZE + address.p) > 0,
    ensures
        state.translate(address) == (
            state,
            Ok::<u32, VMError>(
                (state.word(state.word(table_slot(address.s as int)) * PAGE_SIZE + address.p)
                    * PAGE_SIZE + address.w) as u32,
            ),
        ),
{
}

/// With every frame beyond the segment table in use, an address within its
/// segment whose page table or page has to be brought in fails with
/// `MemoryFull`, and nothing changes.
pub proof fn lemma_translate_full(state: MachineState, address: VirtualAddress)
    requires
        state.wf(),
        address.wf(),
        state.is_full(),
        address.pw < state.word(size_slot(address.s as int)),
        state.word(table_slot(address.s as int)) < 0 || (state.word(
            table_slot(address.s as int),
        ) > 0 && state.word(state.word(table_slot(address.s as int)) * PAGE_SIZE + address.p)
            < 0),
    ensures
        state.translate(address) == (state, Err::<u32, VMError>(VMError::MemoryFull)),
{
    lemma_allocate(state);
}

/// Translating an address a second time gives what the first time gave, the
/// same address or the same error, and changes nothing more.
pub proof fn lemma_translate_twice(state: MachineState, address: VirtualAddress)
    requires
        state.wf(),
        address.wf(),
    ensures
        state.translate(address).0.translate(address) == (
            state.translate(address).0,
            state.translate(address).1,
        ),
{
    let size = size_slot(address.s as int);
    let slot = table_slot(address.s as int);
    if address.pw < state.word(size) {
        lemma_resolve(state, slot);
        lemma_resolve_settles(state, slot);
        lemma_resolve_keeps(state, slot, size);
        match state.resolve(slot) {
            (with_table, Ok(table)) => {
                let page_slot = table * PAGE_SIZE + address.p;
                lemma_resolve(with_table, page_slot);
                lemma_resolve_settles(with_table, page_slot);
                lemma_resolve_keeps(with_table, page_slot, size);
                lemma_resolve_keeps(with_table, page_slot, slot);
                let with_page = with_table.resolve(page_slot).0;
                assert(with_page.word(size) == state.word(size));
                assert(with_page.word(slot) == table);
                assert(with_page.resolve(slot) == (with_page, Ok::<int, VMError>(table)));
            },
            (with_table, Err(e)) => {},
        }
    }
}

/// What is resident stays where it is. A word of a frame in use that names
/// no block of the backing store is the same after any translation: once a
/// page table or a page was brought in, it is found in its frame from then
/// on, and nothing is brought in for it again.
pub proof fn lemma_translate_keeps_resident(
    state: MachineState,
    address: VirtualAddress,
    other: int,
)
    requires
        state.wf(),
        address.wf(),
        0 <= other < MEMORY_WORD_COUNT,
        !state.free[other / PAGE_SIZE as int],
        state.word(other) >= 0,
    ensures
        state.translate(address).0.word(other) == state.word(other),
{
    let slot = table_slot(address.s as int);
    if address.pw < state.word(size_slot(address.s as int)) {
        lemma_resolve(state, slot);
        if other != slot {
            lemma_resolve_keeps(state, slot, other);
        }
        match state.resolve(slot) {
            (with_table, Ok(table)) => {
                let page_slot = table * PAGE_SIZE + address.p;
                lemma_resolve(with_table, page_slot);
                if other != page_slot {
                    lemma_resolve_keeps(with_table, page_slot, other);
                }
            },
            (with_table, Err(e)) => {},
        }
    }
}

/// Where the page table is resident and the page is on the backing store,
/// translating brings in the page and nothing else: the lowest free frame
/// takes the words of the page's block, the page's word in the table names
/// that frame, one frame fewer is free, and the address is word `w` of that
/// frame.
pub proof fn lemma_translate_brings_page_in(state: MachineState, address: VirtualAddress)
    requires
        state.wf(),
        address.wf(),
        !state.is_full(),
        address.pw < state.word(size_slot(address.s as int)),
        state.word(table_slot(address.s as int)) > 0,
        state.word(state.word(table_slot(address.s as int)) * PAGE_SIZE + address.p) < 0,
    ensures
        ({
            let page_slot = state.word(table_slot(address.s as int)) * PAGE_SIZE + address.p;
            let block = -state.word(page_slot);
            let (next, result) = state.translate(address);
            let frame = state.lowest_free().unwrap();
            &&& state.is_lowest_free(frame)
            &&& result == Ok::<u32, VMError>((frame * PAGE_SIZE + address.w) as u32)
            &&& next.frames[frame] == state.disk[block]
            &&& next.word(page_slot) == frame
            &&& next.free == state.free.update(frame, false)
            &&& next.free_count() == state.free_count() - 1
        }),
{
    let slot = table_slot(address.s as int);
    lemma_resolve(state, slot);
    let table = state.word(slot);
    let page_slot = table * PAGE_SIZE + address.p;
    assert(holds_location((slot / PAGE_SIZE as int) * PAGE_SIZE + slot % PAGE_SIZE as int));
    assert(state.can_follow(state.frames[slot / PAGE_SIZE as int][slot % PAGE_SIZE as int]));
    lemma_resolve_brings_in(state, page_slot);
}

/// Where the page table is on the backing store, translating brings it in
/// first: the lowest free frame takes the words of the table's block, and
/// the segment's word names that frame from then on, whether or not the page
/// is then found.
pub proof fn lemma_translate_brings_table_in(state: MachineState, address: VirtualAddress)
    requires
        state.wf(),
        address.wf(),
        !state.is_full(),
        address.pw < state.word(size_slot(address.s as int)),
        state.word(table_slot(address.s as int)) < 0,
    ensures
        ({
            let slot = table_slot(address.s as int);
            let next = state.translate(address).0;
            let frame = state.lowest_free().unwrap();
            &&& state.is_lowest_free(frame)
            &&& next.word(slot) == frame
            &&& !next.free[frame]
            &&& forall|i: int|
                0 <= i < PAGE_SIZE && i != address.p ==> #[trigger] next.frames[frame][i]
                    == state.disk[-state.word(slot)][i]
        }),
{
    let slot = table_slot(address.s as int);
    lemma_resolve(state, slot);
    lemma_resolve_brings_in(state, slot);
    let (with_table, table) = (state.resolve(slot).0, state.resolve(slot).1.unwrap());
    let page_slot = table * PAGE_SIZE + address.p;
    lemma_resolve(with_table, page_slot);
    lemma_resolve_keeps(with_table, page_slot, slot);
    if with_table.word(page_slot) < 0 {
        lemma_allocate(with_table);
    }
}

} // verus!
