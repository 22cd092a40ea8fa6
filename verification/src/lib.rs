//! Address translation for a machine that combines segmentation with paging
//! and fetches missing pages on demand from a backing store.
//!
//! A virtual address names a segment, a page of that segment and a word of
//! that page. The engine in [`vm::virtual_memory`] walks the segment table and
//! the page table, brings in from the backing store whatever is not resident,
//! and returns the physical address of the word. What the engine holds and
//! does is laid down in [`vm::machine_state`], and what follows from that in
//! [`vm::machine_laws`].
//!
//! The entries that fill the tables are in [`io`], with the reading of their
//! numbers from text. [`batch`] reads whole lists of entries and answers
//! whole lists of addresses.

pub mod batch;
pub mod constants;
pub mod error;
pub mod io;
pub mod vm;
