//! The three things that a word can say of where a page or a page table is.

use vstd::prelude::*;

verus! {

/// Where a page or a page table is, as one word tells it.
#[derive(Debug, PartialEq, Eq, Clone, Copy, Structural)]
pub enum Location {
    /// On the backing store, in the block of this number. The word is the
    /// number negated.
    OnDisk(u32),
    /// Nowhere: no location was ever given. The word is zero.
    Uninitialized,
    /// In physical memory, in the frame of this number. The word is the
    /// number.
    Resident(u32),
}

impl Location {
    /// What `word` says.
    pub open spec fn of(word: i32) -> Location {
        if word < 0 {
            Location::OnDisk((-word) as u32)
        } else if word == 0 {
            Location::Uninitialized
        } else {
            Location::Resident(word as u32)
        }
    }

    /// The word that says `self`, as a number of any size.
    pub open spec fn word(self) -> int {
        match self {
            Location::OnDisk(block) => -(block as int),
            Location::Uninitialized => 0,
            Location::Resident(frame) => frame as int,
        }
    }

    /// Whether a word says `self` and nothing else does: a block or a frame
    /// has a number above zero, and the word fits in 32 bits.
    pub open spec fn wf(self) -> bool {
        match self {
            Location::OnDisk(block) => 0 < block <= 0x8000_0000,
            Location::Uninitialized => true,
            Location::Resident(frame) => 0 < frame <= 0x7FFF_FFFF,
        }
    }

    /// Reads what `word` says.
    pub fn decode(word: i32) -> (location: Location)
        ensures
            location == Location::of(word),
            location.wf(),
            location.word() == word,
    {
        if word < 0 {
            Location::OnDisk((-(word as i64)) as u32)
        } else if word == 0 {
            Location::Uninitialized
        } else {
            Location::Resident(word as u32)
        }
    }

    /// The word that says `self`.
    pub fn encode(self) -> (word: i32)
        requires
            self.wf(),
        ensures
            word == self.word(),
            Location::of(word) == self,
    {
        match self {
            Location::OnDisk(block) => (-(block as i64)) as i32,
            Location::Uninitialized => 0,
            Location::Resident(frame) => frame as i32,
        }
    }
}

/// Every word says one location, and the word of that location is the word
/// again.
pub proof fn lemma_location_of_word(word: i32)
    ensures
        Location::of(word).wf(),
        Location::of(word).word() == word,
{
}

/// Every location that a word can say is said by its own word, and by no
/// other.
pub proof fn lemma_word_of_location(location: Location, word: i32)
    requires
        location.wf(),
    ensures
        Location::of(word) == location <==> word == location.word(),
{
}

} // verus!
