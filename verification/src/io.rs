//! The entries that initialise the engine, the numbers they are made of, and
//! the fields of a text.

pub mod data;
pub mod fields;
pub mod pt_input;
pub mod st_input;
