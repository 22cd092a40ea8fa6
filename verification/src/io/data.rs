//! The four bounded numbers of an entry, each read from decimal text.

pub mod decimal;
pub mod frame_offset;
pub mod page_offset;
pub mod segment_offset;
pub mod segment_size;
