//! Physical memory, the backing store and the translation engine.

pub mod frame;
pub mod location;
pub mod machine_laws;
pub mod machine_state;
pub mod physical_memory;
pub mod virtual_address;
pub mod virtual_memory;
